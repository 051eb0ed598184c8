use vstd::prelude::*;
use crate::ast::expression::Operator;
use crate::ast::statement::DeclarationKind;
use crate::ast::view::{Clause, Formula, GlobalClause, Naming};
use crate::number::ONE;
use crate::parser::token::{Lexeme, TokenKind};

verus! {

/// What the parser reads: the tokens, and for each token that is a number
/// the pattern of the number, at the index of the token.
pub struct Input {
    pub tokens: Seq<Lexeme>,
    pub values: Seq<u32>,
}

/// What was parsed and where the parser goes on, or the message of the
/// error.
pub type Parsed<T> = Result<(T, int), Seq<char>>;

/// The kind of the token at a place; past the last token stands the end.
pub open spec fn kind_at(input: Input, pos: int) -> TokenKind {
    if 0 <= pos < input.tokens.len() {
        input.tokens[pos].kind
    } else {
        TokenKind::Eof
    }
}

pub open spec fn text_at(input: Input, pos: int) -> Seq<char> {
    if 0 <= pos < input.tokens.len() {
        input.tokens[pos].text
    } else {
        Seq::empty()
    }
}

/// The place after a token; there is none after the last.
pub open spec fn after(input: Input, pos: int) -> int {
    if 0 <= pos < input.tokens.len() {
        pos + 1
    } else {
        pos
    }
}

/// True when the parser went on from `pos` to `to`.
pub open spec fn moved(input: Input, pos: int, to: int) -> bool {
    pos < to <= input.tokens.len()
}

pub open spec fn stuck<T>() -> Parsed<T> {
    Err("Expression expected"@)
}

/// The parts of a name, joined by underscores.
pub open spec fn join_names(parts: Seq<Seq<char>>, n: nat) -> Seq<char>
    decreases n,
{
    if n == 0 {
        Seq::empty()
    } else if n == 1 {
        parts[0]
    } else {
        join_names(parts, (n - 1) as nat) + "_"@ + parts[n - 1]
    }
}

pub open spec fn binary(left: Formula, operator: Operator, right: Formula) -> Formula {
    Formula::Binary(Box::new(left), operator, Box::new(right))
}

pub open spec fn expression(input: Input, pos: int) -> Parsed<Formula>
    decreases input.tokens.len() - pos, 17nat,
{
    assignment(input, pos)
}

/// An alternative, and, where an equals sign follows it, an expression
/// that is assigned to it; it must then be a name or a member.
pub open spec fn assignment(input: Input, pos: int) -> Parsed<Formula>
    decreases input.tokens.len() - pos, 16nat,
{
    match or(input, pos) {
        Err(e) => Err(e),
        Ok((left, p)) => if !moved(input, pos, p) {
            stuck()
        } else if kind_at(input, p) is Equal {
            match expression(input, after(input, p)) {
                Err(e) => Err(e),
                Ok((right, p)) => match left {
                    Formula::Identifier(_) => Ok(
                        (Formula::Assigment(Box::new(left), Box::new(right)), p),
                    ),
                    Formula::Member(_, _) => Ok(
                        (Formula::Assigment(Box::new(left), Box::new(right)), p),
                    ),
                    _ => Err("Incorrect lvalue"@),
                },
            }
        } else {
            Ok((left, p))
        },
    }
}

pub open spec fn or(input: Input, pos: int) -> Parsed<Formula>
    decreases input.tokens.len() - pos, 15nat,
{
    match and(input, pos) {
        Err(e) => Err(e),
        Ok((left, p)) => if !moved(input, pos, p) {
            stuck()
        } else {
            or_rest(input, p, left)
        },
    }
}

pub open spec fn or_rest(input: Input, pos: int, left: Formula) -> Parsed<Formula>
    decreases input.tokens.len() - pos, 0nat,
{
    if kind_at(input, pos) is Or {
        match and(input, after(input, pos)) {
            Err(e) => Err(e),
            Ok((right, p)) => if !moved(input, pos, p) {
                stuck()
            } else {
                or_rest(input, p, binary(left, Operator::Or, right))
            },
        }
    } else {
        Ok((left, pos))
    }
}

pub open spec fn and(input: Input, pos: int) -> Parsed<Formula>
    decreases input.tokens.len() - pos, 14nat,
{
    match eq(input, pos) {
        Err(e) => Err(e),
        Ok((left, p)) => if !moved(input, pos, p) {
            stuck()
        } else {
            and_rest(input, p, left)
        },
    }
}

pub open spec fn and_rest(input: Input, pos: int, left: Formula) -> Parsed<Formula>
    decreases input.tokens.len() - pos, 0nat,
{
    if kind_at(input, pos) is And {
        match eq(input, after(input, pos)) {
            Err(e) => Err(e),
            Ok((right, p)) => if !moved(input, pos, p) {
                stuck()
            } else {
                and_rest(input, p, binary(left, Operator::And, right))
            },
        }
    } else {
        Ok((left, pos))
    }
}

/// A comparison, and, where `is` or `is not` follows it, a second one.
pub open spec fn eq(input: Input, pos: int) -> Parsed<Formula>
    decreases input.tokens.len() - pos, 13nat,
{
    match rel(input, pos) {
        Err(e) => Err(e),
        Ok((left, p)) => if !moved(input, pos, p) {
            stuck()
        } else if kind_at(input, p) is Is {
            let negated = kind_at(input, after(input, p)) is Not;
            let from = if negated {
                after(input, after(input, p))
            } else {
                after(input, p)
            };
            match rel(input, from) {
                Err(e) => Err(e),
                Ok((right, p)) => Ok(
                    (
                        binary(
                            left,
                            if negated {
                                Operator::NE
                            } else {
                                Operator::Eq
                            },
                            right,
                        ),
                        p,
                    ),
                ),
            }
        } else {
            Ok((left, p))
        },
    }
}

pub open spec fn relation(kind: TokenKind) -> Option<Operator> {
    match kind {
        TokenKind::Grater => Some(Operator::Greater),
        TokenKind::Less => Some(Operator::Less),
        TokenKind::GraterEqual => Some(Operator::Ge),
        TokenKind::LessEqual => Some(Operator::Le),
        _ => None,
    }
}

pub open spec fn rel(input: Input, pos: int) -> Parsed<Formula>
    decreases input.tokens.len() - pos, 12nat,
{
    match term(input, pos) {
        Err(e) => Err(e),
        Ok((left, p)) => if !moved(input, pos, p) {
            stuck()
        } else {
            match relation(kind_at(input, p)) {
                Some(operator) => match term(input, after(input, p)) {
                    Err(e) => Err(e),
                    Ok((right, p)) => Ok((binary(left, operator, right), p)),
                },
                None => Ok((left, p)),
            }
        },
    }
}

pub open spec fn term(input: Input, pos: int) -> Parsed<Formula>
    decreases input.tokens.len() - pos, 11nat,
{
    match factor(input, pos) {
        Err(e) => Err(e),
        Ok((left, p)) => if !moved(input, pos, p) {
            stuck()
        } else {
            term_rest(input, p, left)
        },
    }
}

pub open spec fn term_rest(input: Input, pos: int, left: Formula) -> Parsed<Formula>
    decreases input.tokens.len() - pos, 0nat,
{
    if kind_at(input, pos) is Plus || kind_at(input, pos) is Minus {
        match factor(input, after(input, pos)) {
            Err(e) => Err(e),
            Ok((right, p)) => if !moved(input, pos, p) {
                stuck()
            } else {
                term_rest(
                    input,
                    p,
                    binary(
                        left,
                        if kind_at(input, pos) is Plus {
                            Operator::Plus
                        } else {
                            Operator::Minus
                        },
                        right,
                    ),
                )
            },
        }
    } else {
        Ok((left, pos))
    }
}

pub open spec fn factor(input: Input, pos: int) -> Parsed<Formula>
    decreases input.tokens.len() - pos, 10nat,
{
    match unary(input, pos) {
        Err(e) => Err(e),
        Ok((left, p)) => if !moved(input, pos, p) {
            stuck()
        } else {
            factor_rest(input, p, left)
        },
    }
}

pub open spec fn factor_rest(input: Input, pos: int, left: Formula) -> Parsed<Formula>
    decreases input.tokens.len() - pos, 0nat,
{
    if kind_at(input, pos) is Star || kind_at(input, pos) is Slash {
        match unary(input, after(input, pos)) {
            Err(e) => Err(e),
            Ok((right, p)) => if !moved(input, pos, p) {
                stuck()
            } else {
                factor_rest(
                    input,
                    p,
                    binary(
                        left,
                        if kind_at(input, pos) is Slash {
                            Operator::Div
                        } else {
                            Operator::Mul
                        },
                        right,
                    ),
                )
            },
        }
    } else {
        Ok((left, pos))
    }
}

pub open spec fn unary(input: Input, pos: int) -> Parsed<Formula>
    decreases input.tokens.len() - pos, 9nat,
{
    if kind_at(input, pos) is Minus || kind_at(input, pos) is Not {
        match pow(input, after(input, pos)) {
            Err(e) => Err(e),
            Ok((expr, p)) => Ok(
                (
                    Formula::Unary(
                        if kind_at(input, pos) is Minus {
                            Operator::Minus
                        } else {
                            Operator::NE
                        },
                        Box::new(expr),
                    ),
                    p,
                ),
            ),
        }
    } else {
        pow(input, pos)
    }
}

pub open spec fn pow(input: Input, pos: int) -> Parsed<Formula>
    decreases input.tokens.len() - pos, 8nat,
{
    match call(input, pos) {
        Err(e) => Err(e),
        Ok((left, p)) => if !moved(input, pos, p) {
            stuck()
        } else {
            pow_rest(input, p, left)
        },
    }
}

pub open spec fn pow_rest(input: Input, pos: int, left: Formula) -> Parsed<Formula>
    decreases input.tokens.len() - pos, 0nat,
{
    if kind_at(input, pos) is Pow {
        match call(input, after(input, pos)) {
            Err(e) => Err(e),
            Ok((right, p)) => if !moved(input, pos, p) {
                stuck()
            } else {
                pow_rest(input, p, binary(left, Operator::Pow, right))
            },
        }
    } else {
        Ok((left, pos))
    }
}

pub open spec fn call(input: Input, pos: int) -> Parsed<Formula>
    decreases input.tokens.len() - pos, 7nat,
{
    match primary(input, pos) {
        Err(e) => Err(e),
        Ok((rez, p)) => if !moved(input, pos, p) {
            stuck()
        } else {
            call_rest(input, p, rez)
        },
    }
}

pub open spec fn member(callee: Formula, property: Formula) -> Formula {
    Formula::Member(Box::new(callee), Box::new(property))
}

/// What follows the head of a call: arguments in round brackets, which make
/// a call, and members after `'s`. A name takes the parts of its name that
/// stand between its lists of arguments.
pub open spec fn call_rest(input: Input, pos: int, rez: Formula) -> Parsed<Formula>
    decreases input.tokens.len() - pos, 1nat,
{
    if kind_at(input, pos) is LeftBrace {
        match rez {
            Formula::Identifier(name) => match function_rest(input, pos, seq![name], Seq::empty()) {
                Err(e) => Err(e),
                Ok((named, p)) => if !moved(input, pos, p) {
                    stuck()
                } else {
                    call_rest(
                        input,
                        p,
                        Formula::Call(Box::new(Formula::Identifier(named.0)), named.1),
                    )
                },
            },
            _ => match args(input, after(input, pos)) {
                Err(e) => Err(e),
                Ok((found, p)) => if !moved(input, pos, p) {
                    stuck()
                } else {
                    call_rest(input, p, Formula::Call(Box::new(rez), found))
                },
            },
        }
    } else if kind_at(input, pos) is Possesive {
        match primary(input, after(input, pos)) {
            Err(e) => Err(e),
            Ok((property, p)) => if !moved(input, pos, p) {
                stuck()
            } else {
                match property {
                    Formula::Identifier(name) => if kind_at(input, p) is LeftBrace {
                        match function_rest(input, p, seq![name], Seq::empty()) {
                            Err(e) => Err(e),
                            Ok((named, p2)) => if !moved(input, p, p2) {
                                stuck()
                            } else {
                                call_rest(
                                    input,
                                    p2,
                                    Formula::Call(
                                        Box::new(member(rez, Formula::Text(named.0))),
                                        named.1,
                                    ),
                                )
                            },
                        }
                    } else {
                        call_rest(input, p, member(rez, Formula::Text(name)))
                    },
                    _ => call_rest(input, p, member(rez, property)),
                }
            },
        }
    } else {
        Ok((rez, pos))
    }
}

/// The rest of the name of a function and its arguments: lists of
/// arguments and parts of the name, in any order, as long as they follow.
pub open spec fn function_rest(
    input: Input,
    pos: int,
    parts: Seq<Seq<char>>,
    found: Seq<Formula>,
) -> Parsed<(Seq<char>, Seq<Formula>)>
    decreases input.tokens.len() - pos, 0nat,
{
    if kind_at(input, pos) is LeftBrace {
        match args(input, after(input, pos)) {
            Err(e) => Err(e),
            Ok((more, p)) => if !moved(input, pos, p) {
                stuck()
            } else {
                function_rest(input, p, parts, found + more)
            },
        }
    } else if kind_at(input, pos) is Identifier {
        function_rest(input, after(input, pos), parts.push(text_at(input, pos)), found)
    } else {
        Ok(((join_names(parts, parts.len()), found), pos))
    }
}

/// The arguments of a call, after the opening bracket.
pub open spec fn args(input: Input, pos: int) -> Parsed<Seq<Formula>>
    decreases input.tokens.len() - pos, 18nat,
{
    if kind_at(input, pos) is RightBrace {
        Ok((Seq::empty(), after(input, pos)))
    } else {
        match expression(input, pos) {
            Err(e) => Err(e),
            Ok((first, p)) => if !moved(input, pos, p) {
                stuck()
            } else {
                args_rest(input, p, seq![first])
            },
        }
    }
}

pub open spec fn args_rest(input: Input, pos: int, found: Seq<Formula>) -> Parsed<Seq<Formula>>
    decreases input.tokens.len() - pos, 0nat,
{
    if kind_at(input, pos) is Comma {
        match expression(input, after(input, pos)) {
            Err(e) => Err(e),
            Ok((next, p)) => if !moved(input, pos, p) {
                stuck()
            } else {
                args_rest(input, p, found.push(next))
            },
        }
    } else if kind_at(input, pos) is RightBrace {
        Ok((found, after(input, pos)))
    } else {
        Err("Expected ')' after arguments definitions"@)
    }
}

/// The place after a comma, where one stands at the place.
pub open spec fn past_comma(input: Input, pos: int) -> int {
    if kind_at(input, pos) is Comma {
        after(input, pos)
    } else {
        pos
    }
}

/// The pairs of an object, after the opening bracket: each a key, which is
/// a name, a string or a number, a colon and a value; commas may part them.
pub open spec fn object_rest(
    input: Input,
    pos: int,
    keys: Seq<Formula>,
    values: Seq<Formula>,
) -> Parsed<Formula>
    decreases input.tokens.len() - pos, 19nat,
{
    let kind = kind_at(input, pos);
    if kind is RightParen {
        Ok((Formula::Object(keys, values), after(input, pos)))
    } else if kind is Identifier || kind is String || kind is Number {
        let colon = after(input, pos);
        if kind_at(input, colon) is Colon {
            match expression(input, after(input, colon)) {
                Err(e) => Err(e),
                Ok((value, p)) => if !moved(input, pos, p) {
                    stuck()
                } else {
                    object_rest(
                        input,
                        past_comma(input, p),
                        keys.push(Formula::Text(text_at(input, pos))),
                        values.push(value),
                    )
                },
            }
        } else {
            Err("Key value pairs must be separated by :"@)
        }
    } else {
        match primary(input, pos) {
            Err(e) => Err(e),
            Ok(_) => Err("Object key must be an identifier, string or number"@),
        }
    }
}

/// The items of an array, after the opening bracket; commas may part them.
pub open spec fn array_rest(input: Input, pos: int, values: Seq<Formula>) -> Parsed<Formula>
    decreases input.tokens.len() - pos, 19nat,
{
    if kind_at(input, pos) is RightSquareBracket {
        Ok((Formula::Array(values), after(input, pos)))
    } else {
        match expression(input, pos) {
            Err(e) => Err(e),
            Ok((value, p)) => if !moved(input, pos, p) {
                stuck()
            } else {
                array_rest(input, past_comma(input, p), values.push(value))
            },
        }
    }
}

pub open spec fn primary(input: Input, pos: int) -> Parsed<Formula>
    decreases input.tokens.len() - pos, 6nat,
{
    let next = after(input, pos);
    match kind_at(input, pos) {
        TokenKind::True => Ok((Formula::Bool(true), next)),
        TokenKind::False => Ok((Formula::Bool(false), next)),
        TokenKind::Nil => Ok((Formula::Nil, next)),
        TokenKind::String => Ok((Formula::Text(text_at(input, pos)), next)),
        TokenKind::Number => if 0 <= pos < input.values.len() {
            Ok((Formula::Number(input.values[pos]), next))
        } else {
            Err("Number literal has no value"@)
        },
        TokenKind::Identifier => Ok((Formula::Identifier(text_at(input, pos)), next)),
        TokenKind::LeftParen => object_rest(input, next, Seq::empty(), Seq::empty()),
        TokenKind::LeftSquareBracket => array_rest(input, next, Seq::empty()),
        TokenKind::LeftBrace => match expression(input, next) {
            Err(e) => Err(e),
            Ok((expr, p)) => if kind_at(input, p) is RightBrace {
                Ok((Formula::Group(Box::new(expr)), after(input, p)))
            } else {
                Err("Expected ')' at the end of expression"@)
            },
        },
        _ => Err("Expression expected"@),
    }
}

pub open spec fn semicolon_expected() -> Seq<char> {
    "Expected ; at the end of the statement"@
}

/// What was parsed so far, where a semicolon follows it.
pub open spec fn closed<T>(input: Input, pos: int, value: T) -> Parsed<T> {
    if kind_at(input, pos) is Semicolon {
        Ok((value, after(input, pos)))
    } else {
        Err(semicolon_expected())
    }
}

pub open spec fn statement(input: Input, pos: int) -> Parsed<Clause>
    decreases input.tokens.len() - pos, 30nat,
{
    match kind_at(input, pos) {
        TokenKind::Break => closed(input, after(input, pos), Clause::Break),
        TokenKind::Print => print_stmt(input, pos),
        TokenKind::Return => return_stmt(input, pos),
        TokenKind::LeftParen => if kind_at(input, pos + 2) is Colon {
            expression_statement(input, pos)
        } else {
            block_stmt(input, pos, false)
        },
        TokenKind::If => if_stmt(input, pos),
        TokenKind::Loop => loop_stmt(input, pos),
        TokenKind::Const => decl_statement(input, pos),
        TokenKind::Var => decl_statement(input, pos),
        _ => expression_statement(input, pos),
    }
}

pub open spec fn print_stmt(input: Input, pos: int) -> Parsed<Clause>
    decreases input.tokens.len() - pos, 29nat,
{
    match expression(input, after(input, pos)) {
        Err(e) => Err(e),
        Ok((expr, p)) => closed(input, p, Clause::Print(expr)),
    }
}

pub open spec fn return_stmt(input: Input, pos: int) -> Parsed<Clause>
    decreases input.tokens.len() - pos, 29nat,
{
    if kind_at(input, after(input, pos)) is Semicolon {
        Ok((Clause::Return(None), after(input, after(input, pos))))
    } else {
        match expression(input, after(input, pos)) {
            Err(e) => Err(e),
            Ok((expr, p)) => closed(input, p, Clause::Return(Some(expr))),
        }
    }
}

pub open spec fn expression_statement(input: Input, pos: int) -> Parsed<Clause>
    decreases input.tokens.len() - pos, 29nat,
{
    match expression(input, pos) {
        Err(e) => Err(e),
        Ok((expr, p)) => closed(input, p, Clause::Expression(expr)),
    }
}

/// A condition, a block, and, after `else`, a statement.
pub open spec fn if_stmt(input: Input, pos: int) -> Parsed<Clause>
    decreases input.tokens.len() - pos, 29nat,
{
    match expression(input, after(input, pos)) {
        Err(e) => Err(e),
        Ok((condition, p)) => if !moved(input, pos, p) {
            stuck()
        } else if kind_at(input, p) is LeftParen {
            match block_stmt(input, p, false) {
                Err(e) => Err(e),
                Ok((body, p)) => if !moved(input, pos, p) {
                    stuck()
                } else if kind_at(input, p) is Else {
                    match statement(input, after(input, p)) {
                        Err(e) => Err(e),
                        Ok((alternative, p)) => Ok(
                            (
                                Clause::If(condition, Box::new(body), Some(Box::new(alternative))),
                                p,
                            ),
                        ),
                    }
                } else {
                    Ok((Clause::If(condition, Box::new(body), None), p))
                },
            }
        } else {
            Err("Expected { after if statement condition"@)
        },
    }
}

pub open spec fn block_unclosed() -> Seq<char> {
    "Expected } at the end of a block statement"@
}

/// The statements between curly brackets.
pub open spec fn block_stmt(input: Input, pos: int, is_function: bool) -> Parsed<Clause>
    decreases input.tokens.len() - pos, 29nat,
{
    if 0 <= pos < input.tokens.len() {
        block_rest(input, pos + 1, Seq::empty(), is_function)
    } else {
        Err(block_unclosed())
    }
}

pub open spec fn block_rest(input: Input, pos: int, stmts: Seq<Clause>, is_function: bool) -> Parsed<
    Clause,
>
    decreases input.tokens.len() - pos, 31nat,
{
    if kind_at(input, pos) is Eof {
        Err(block_unclosed())
    } else if kind_at(input, pos) is RightParen {
        Ok(
            (
                if is_function {
                    Clause::FunctionBody(stmts)
                } else {
                    Clause::Block(stmts)
                },
                after(input, pos),
            ),
        )
    } else {
        match statement(input, pos) {
            Err(e) => Err(e),
            Ok((stmt, p)) => if !moved(input, pos, p) {
                stuck()
            } else {
                block_rest(input, p, stmts.push(stmt), is_function)
            },
        }
    }
}

/// One declaration, or several.
pub open spec fn declared(decls: Seq<Naming>) -> Clause {
    if decls.len() == 1 {
        Clause::Declaration(decls[0])
    } else {
        Clause::MultiDeclaration(decls)
    }
}

/// Names, each with a value after an equals sign or without one, parted by
/// commas, up to a semicolon.
pub open spec fn decl_statement(input: Input, pos: int) -> Parsed<Clause>
    decreases input.tokens.len() - pos, 29nat,
{
    decl_rest(
        input,
        after(input, pos),
        if kind_at(input, pos) is Var {
            DeclarationKind::Var
        } else {
            DeclarationKind::Const
        },
        Seq::empty(),
    )
}

pub open spec fn decl_rest(input: Input, pos: int, kind: DeclarationKind, decls: Seq<Naming>) -> Parsed<
    Clause,
>
    decreases input.tokens.len() - pos, 27nat,
{
    if kind_at(input, pos) is Identifier {
        let name = text_at(input, pos);
        let next = after(input, pos);
        if kind_at(input, next) is Equal {
            match expression(input, after(input, next)) {
                Err(e) => Err(e),
                Ok((value, p)) => if !moved(input, pos, p) {
                    stuck()
                } else {
                    decl_next(
                        input,
                        p,
                        kind,
                        decls.push(Naming { kind: kind, variable: name, value: Some(value) }),
                    )
                },
            }
        } else {
            decl_next(
                input,
                next,
                kind,
                decls.push(Naming { kind: kind, variable: name, value: None }),
            )
        }
    } else {
        Err("Assignee has to be a variable"@)
    }
}

pub open spec fn decl_next(input: Input, pos: int, kind: DeclarationKind, decls: Seq<Naming>) -> Parsed<
    Clause,
>
    decreases input.tokens.len() - pos, 26nat,
{
    if kind_at(input, pos) is Semicolon {
        Ok((declared(decls), after(input, pos)))
    } else if kind_at(input, pos) is Comma {
        decl_rest(input, after(input, pos), kind, decls)
    } else {
        Err("Expected , in between declaring multiple variables"@)
    }
}

/// A first expression, and, after two points, a last.
pub open spec fn range(input: Input, pos: int) -> Parsed<(Formula, Option<Formula>)>
    decreases input.tokens.len() - pos, 18nat,
{
    match expression(input, pos) {
        Err(e) => Err(e),
        Ok((start, p)) => if !moved(input, pos, p) {
            stuck()
        } else if kind_at(input, p) is DoubleDot {
            match expression(input, after(input, p)) {
                Err(e) => Err(e),
                Ok((stop, p)) => Ok(((start, Some(stop)), p)),
            }
        } else {
            Ok(((start, None), p))
        },
    }
}

/// The loop over a range, written as a block: the declaration of the
/// variable of the loop with the first value, and a loop of the statements,
/// the step of the variable by one, and a break where the variable has
/// reached the last value.
pub open spec fn ranged_loop(
    start: Formula,
    stop: Formula,
    reverse: bool,
    alias: Seq<char>,
    body: Clause,
) -> Clause {
    let first = if reverse {
        stop
    } else {
        start
    };
    let last = if reverse {
        start
    } else {
        stop
    };
    let variable = Formula::Identifier(alias);
    Clause::Block(
        seq![
            Clause::Declaration(
                Naming { kind: DeclarationKind::Var, variable: alias, value: Some(first) },
            ),
            Clause::Loop(
                Box::new(
                    Clause::Block(
                        seq![
                            body,
                            Clause::Expression(
                                Formula::Assigment(
                                    Box::new(variable),
                                    Box::new(
                                        binary(
                                            variable,
                                            if reverse {
                                                Operator::Minus
                                            } else {
                                                Operator::Plus
                                            },
                                            Formula::Number(ONE),
                                        ),
                                    ),
                                ),
                            ),
                            Clause::If(
                                binary(
                                    variable,
                                    if reverse {
                                        Operator::Le
                                    } else {
                                        Operator::Ge
                                    },
                                    last,
                                ),
                                Box::new(Clause::Break),
                                None,
                            ),
                        ],
                    ),
                ),
                alias,
            ),
        ],
    )
}

/// The name after `as`, where `as` stands, and else `it`.
pub open spec fn loop_alias(input: Input, pos: int) -> Parsed<Seq<char>>
    decreases input.tokens.len() - pos, 18nat,
{
    if kind_at(input, pos) is As {
        match expression(input, after(input, pos)) {
            Err(e) => Err(e),
            Ok((name, p)) => match name {
                Formula::Identifier(alias) => Ok((alias, p)),
                _ => Err("Expected identifier after as keyword"@),
            },
        }
    } else {
        Ok(("it"@, pos))
    }
}

/// A loop: of a statement, without end, or of a block over a range.
pub open spec fn loop_stmt(input: Input, pos: int) -> Parsed<Clause>
    decreases input.tokens.len() - pos, 29nat,
{
    if !(0 <= pos < input.tokens.len()) {
        stuck()
    } else if kind_at(input, pos + 1) is LeftParen {
        match statement(input, pos + 1) {
            Err(e) => Err(e),
            Ok((body, p)) => Ok((Clause::Loop(Box::new(body), "it"@), p)),
        }
    } else {
        let reverse = kind_at(input, pos + 1) is Reverse;
        let from = if reverse {
            after(input, pos + 1)
        } else {
            pos + 1
        };
        match range(input, from) {
            Err(e) => Err(e),
            Ok((bounds, p)) => if !moved(input, pos, p) {
                stuck()
            } else {
                match loop_alias(input, p) {
                    Err(e) => Err(e),
                    Ok((alias, p2)) => if !(p <= p2 <= input.tokens.len()) {
                        stuck()
                    } else if kind_at(input, p2) is LeftParen {
                        match statement(input, p2) {
                            Err(e) => Err(e),
                            Ok((body, p3)) => match body {
                                Clause::Block(_) => match bounds.1 {
                                    Some(stop) => Ok(
                                        (ranged_loop(bounds.0, stop, reverse, alias, body), p3),
                                    ),
                                    None => Err("Expected a range after loop"@),
                                },
                                _ => Err("Not a block statement"@),
                            },
                        }
                    } else {
                        Err("Expected { after loop declaration"@)
                    },
                }
            },
        }
    }
}

/// The parameters between round brackets: names parted by commas, at least
/// one. The parser goes on at the closing bracket.
pub open spec fn function_params(input: Input, pos: int) -> Parsed<Seq<Seq<char>>>
    decreases input.tokens.len() - pos, 4nat,
{
    if kind_at(input, after(input, pos)) is Identifier {
        params_rest(
            input,
            after(input, after(input, pos)),
            seq![text_at(input, after(input, pos))],
        )
    } else {
        Err("Expected formal function parameter definition"@)
    }
}

pub open spec fn params_rest(input: Input, pos: int, ids: Seq<Seq<char>>) -> Parsed<Seq<Seq<char>>>
    decreases input.tokens.len() - pos, 3nat,
{
    if kind_at(input, pos) is RightBrace {
        Ok((ids, pos))
    } else if kind_at(input, pos) is Comma {
        if kind_at(input, after(input, pos)) is Identifier {
            params_rest(
                input,
                after(input, after(input, pos)),
                ids.push(text_at(input, after(input, pos))),
            )
        } else {
            Err("Expected formal function parameter definition"@)
        }
    } else {
        Err("Expected comma to separate function parameter"@)
    }
}

/// The head of a function: the parts of its name, each with parameters in
/// round brackets after it or without, up to the opening curly bracket.
pub open spec fn function_head(
    input: Input,
    pos: int,
    parts: Seq<Seq<char>>,
    params: Seq<Seq<char>>,
) -> Parsed<(Seq<Seq<char>>, Seq<Seq<char>>)>
    decreases input.tokens.len() - pos, 5nat,
{
    if kind_at(input, pos) is LeftParen {
        Ok(((parts, params), pos))
    } else if kind_at(input, pos) is Identifier {
        let named = parts.push(text_at(input, pos));
        let next = after(input, pos);
        if kind_at(input, next) is LeftBrace {
            match function_params(input, next) {
                Err(e) => Err(e),
                Ok((more, p)) => if !moved(input, pos, p) {
                    stuck()
                } else if kind_at(input, p) is RightBrace {
                    function_head(input, after(input, p), named, params + more)
                } else {
                    Err("Expected right parenthesis after function params declaration"@)
                },
            }
        } else {
            function_head(input, next, named, params)
        }
    } else {
        Err("Cannot have chained params list in the function declaration"@)
    }
}

/// The declaration of a function: after `fun`, the head and the body.
pub open spec fn function_declaration(input: Input, pos: int) -> Parsed<GlobalClause>
    decreases input.tokens.len() - pos, 29nat,
{
    if kind_at(input, after(input, pos)) is LeftParen {
        Err("Expected function name"@)
    } else {
        match function_head(input, after(input, pos), Seq::empty(), Seq::empty()) {
            Err(e) => Err(e),
            Ok((head, p)) => if !moved(input, pos, p) {
                stuck()
            } else {
                match block_stmt(input, p, true) {
                    Err(e) => Err(e),
                    Ok((body, p)) => Ok(
                        (
                            GlobalClause::FunctionDeclaration(
                                join_names(head.0, head.0.len()),
                                head.1,
                                body,
                            ),
                            p,
                        ),
                    ),
                }
            },
        }
    }
}

/// The statements of a program, up to the end of the tokens.
pub open spec fn program_rest(input: Input, pos: int, stmts: Seq<GlobalClause>) -> Parsed<
    Seq<GlobalClause>,
>
    decreases input.tokens.len() - pos, 32nat,
{
    if kind_at(input, pos) is Eof {
        Ok((stmts, pos))
    } else if kind_at(input, pos) is Fun {
        match function_declaration(input, pos) {
            Err(e) => Err(e),
            Ok((function, p)) => if !moved(input, pos, p) {
                stuck()
            } else {
                program_rest(input, p, stmts.push(function))
            },
        }
    } else {
        match statement(input, pos) {
            Err(e) => Err(e),
            Ok((stmt, p)) => if !moved(input, pos, p) {
                stuck()
            } else {
                program_rest(input, p, stmts.push(GlobalClause::Statement(stmt)))
            },
        }
    }
}

} // verus!
