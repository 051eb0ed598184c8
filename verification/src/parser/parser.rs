use vstd::prelude::*;
use vstd::string::*;
use crate::ast::expression::{
    ArrayExpression, AssignmentExpression, BinaryExpression, CallExpression, Expression,
    GroupExpression, Identifier, MemberExpression, ObjectExpression, Operator, UnaryExpression,
};
use crate::ast::statement::{
    BlockStatement, DeclarationKind, DeclarationStatement, ExpressionStatement,
    FunctionDeclarationStatement, GlobalStatement, IfStatement, LoopStatement,
    MultiDeclarationStatement, PrintStatement, Range, ReturnStatement, Statement,
};
use crate::ast::view::{
    clauses, formulas, global_clauses, lemma_clauses, lemma_formulas, names, namings,
    optional_formula, Clause, Formula, GlobalClause, Naming,
};
use crate::number::ONE;
use crate::compiler::texts;
use crate::errors::ParseError;
use crate::parser::grammar::{
    after, and, and_rest, args, args_rest, array_rest, assignment, binary, block_rest, block_stmt,
    call, call_rest, closed, decl_rest, decl_statement, declared, eq, expression,
    expression_statement, factor, factor_rest, function_declaration, function_head,
    function_params, function_rest, if_stmt, join_names, kind_at, loop_alias, loop_stmt, member,
    object_rest, or, or_rest, params_rest, pow, pow_rest, primary, print_stmt, program_rest, range,
    ranged_loop, rel, return_stmt, statement, term, term_rest, text_at, unary, Input, Parsed,
};
use crate::parser::token::{lexemes, Token, TokenKind, TokenType};

verus! {

/// The parser of the tokens of a text. For each token that is a number,
/// `values` holds the pattern of the number at the index of the token.
pub struct Parser {
    pub source: Vec<Token>,
    pub values: Vec<u32>,
    pub start: usize,
    pub current: usize,
}

pub const FUNCTION_NAME_SEPARATOR: &'static str = "_";

/// True when a parse ended as the grammar says: with what the grammar
/// gives, at the place where it goes on, or with its error.
pub open spec fn yields(
    before: Parser,
    now: Parser,
    r: Result<Expression, ParseError>,
    expected: Parsed<Formula>,
) -> bool {
    &&& now.source == before.source
    &&& now.values == before.values
    &&& now.wf()
    &&& match expected {
        Ok((value, place)) => r matches Ok(found) && found@ == value && now.current == place
            && before.current < now.current,
        Err(message) => r matches Err(e) && e.message@ == message && e.line == 1,
    }
}

/// The same for the arguments of a call.
pub open spec fn yields_all(
    before: Parser,
    now: Parser,
    r: Result<Vec<Expression>, ParseError>,
    expected: Parsed<Seq<Formula>>,
) -> bool {
    &&& now.source == before.source
    &&& now.values == before.values
    &&& now.wf()
    &&& match expected {
        Ok((value, place)) => r matches Ok(found) && formulas(found, found.len() as nat) == value
            && now.current == place && before.current < now.current,
        Err(message) => r matches Err(e) && e.message@ == message && e.line == 1,
    }
}

/// The same for the name and the arguments of a function that is called.
pub open spec fn yields_named(
    before: Parser,
    now: Parser,
    r: Result<(String, Vec<Expression>), ParseError>,
    expected: Parsed<(Seq<char>, Seq<Formula>)>,
) -> bool {
    &&& now.source == before.source
    &&& now.values == before.values
    &&& now.wf()
    &&& match expected {
        Ok((value, place)) => r matches Ok(found) && found.0@ == value.0 && formulas(
            found.1,
            found.1.len() as nat,
        ) == value.1 && now.current == place && before.current <= now.current,
        Err(message) => r matches Err(e) && e.message@ == message && e.line == 1,
    }
}

fn binary_of(left: Expression, operator: Operator, right: Expression) -> (e: Expression)
    ensures
        e@ == binary(left@, operator, right@),
{
    Expression::Binary(Box::new(BinaryExpression { left, operator, right }))
}

fn unary_of(operator: Operator, expr: Expression) -> (e: Expression)
    ensures
        e@ == Formula::Unary(operator, Box::new(expr@)),
{
    Expression::Unary(Box::new(UnaryExpression { operator, expr }))
}

fn group_of(expr: Expression) -> (e: Expression)
    ensures
        e@ == Formula::Group(Box::new(expr@)),
{
    Expression::Group(Box::new(GroupExpression { expr }))
}

fn object_of(properties: Vec<Expression>, values: Vec<Expression>) -> (e: Expression)
    ensures
        e@ == Formula::Object(
            formulas(properties, properties.len() as nat),
            formulas(values, values.len() as nat),
        ),
{
    Expression::Object(Box::new(ObjectExpression { properties, values }))
}

fn array_of(values: Vec<Expression>) -> (e: Expression)
    ensures
        e@ == Formula::Array(formulas(values, values.len() as nat)),
{
    Expression::Array(Box::new(ArrayExpression { values }))
}

fn text_of(text: String) -> (e: Expression)
    ensures
        e@ == Formula::Text(text@),
{
    Expression::String(text)
}

fn name_of(name: String) -> (e: Expression)
    ensures
        e@ == Formula::Identifier(name@),
{
    Expression::Identifier(name)
}

fn assignment_of(assignee: Expression, value: Expression) -> (e: Expression)
    ensures
        e@ == Formula::Assigment(Box::new(assignee@), Box::new(value@)),
{
    Expression::Assigment(Box::new(AssignmentExpression { assignee, value }))
}

/// An expression is a name, or a member, exactly when it says one.
pub proof fn lemma_view_kind(e: Expression)
    ensures
        e is Identifier <==> e@ is Identifier,
        e is Member <==> e@ is Member,
        e matches Expression::Identifier(name) ==> e@ == Formula::Identifier(name@),
{
}

fn member_of(callee: Expression, property: Expression) -> (e: Expression)
    ensures
        e@ == member(callee@, property@),
{
    Expression::Member(Box::new(MemberExpression { callee, property }))
}

fn call_of(callee: Expression, args: Vec<Expression>) -> (e: Expression)
    ensures
        e@ == Formula::Call(Box::new(callee@), formulas(args, args.len() as nat)),
{
    Expression::Call(Box::new(CallExpression { callee, args }))
}

/// Adds an expression to expressions.
pub fn push_expression(exprs: &mut Vec<Expression>, expr: Expression)
    ensures
        formulas(*final(exprs), final(exprs).len() as nat) == formulas(
            *old(exprs),
            old(exprs).len() as nat,
        ).push(expr@),
        final(exprs).len() == old(exprs).len() + 1,
{
    let ghost value = expr@;
    exprs.push(expr);
    proof {
        lemma_formulas(*exprs, exprs.len() as nat);
        lemma_formulas(*old(exprs), old(exprs).len() as nat);
        assert(formulas(*exprs, exprs.len() as nat) =~= formulas(
            *old(exprs),
            old(exprs).len() as nat,
        ).push(value));
    }
}

fn append_expressions(exprs: &mut Vec<Expression>, more: Vec<Expression>)
    ensures
        formulas(*final(exprs), final(exprs).len() as nat) == formulas(
            *old(exprs),
            old(exprs).len() as nat,
        ) + formulas(more, more.len() as nat),
{
    let mut more = more;
    let ghost added = more;
    exprs.append(&mut more);
    proof {
        lemma_formulas(*exprs, exprs.len() as nat);
        lemma_formulas(*old(exprs), old(exprs).len() as nat);
        lemma_formulas(added, added.len() as nat);
        assert(formulas(*exprs, exprs.len() as nat) =~= formulas(
            *old(exprs),
            old(exprs).len() as nat,
        ) + formulas(added, added.len() as nat));
    }
}

/// The parts of a name, joined by underscores.
pub fn join(parts: &Vec<String>) -> (name: String)
    ensures
        name@ == join_names(texts(parts@), parts.len() as nat),
{
    let mut name = String::new();
    let mut i: usize = 0;
    while i < parts.len()
        invariant
            i <= parts.len(),
            name@ == join_names(texts(parts@), i as nat),
        decreases parts.len() - i,
    {
        if i > 0 {
            name = name.concat(FUNCTION_NAME_SEPARATOR);
        }
        name = name.concat(parts[i].as_str());
        proof {
            assert(texts(parts@)[i as int] == parts[i as int]@);
            if i == 0 {
                assert(name@ =~= parts[0]@);
            }
        }
        i = i + 1;
    }
    name
}

fn stuck_error() -> (e: ParseError)
    ensures
        e.message@ == "Expression expected"@,
        e.line == 1,
{
    ParseError::new("Expression expected", 1)
}

impl Parser {
    pub open spec fn input(&self) -> Input {
        Input { tokens: lexemes(self.source@), values: self.values@ }
    }

    pub open spec fn wf(&self) -> bool {
        self.current <= self.source.len()
    }

    /// A parser of tokens among which no number stands.
    pub fn new(source: Vec<Token>) -> (parser: Self)
        ensures
            parser.source == source,
            parser.values@.len() == 0,
            parser.current == 0,
            parser.wf(),
    {
        Self { source, values: Vec::new(), start: 0, current: 0 }
    }

    /// A parser of tokens, with the patterns of the numbers among them.
    pub fn with_numbers(source: Vec<Token>, values: Vec<u32>) -> (parser: Self)
        ensures
            parser.source == source,
            parser.values == values,
            parser.current == 0,
            parser.wf(),
    {
        Self { source, values, start: 0, current: 0 }
    }

    /// The token at which the parser stands, if it has not gone past the
    /// last.
    pub fn peek(&self) -> (token: Option<&Token>)
        ensures
            token == if self.current < self.source.len() {
                Some(&self.source[self.current as int])
            } else {
                None
            },
    {
        if self.current < self.source.len() {
            Some(&self.source[self.current])
        } else {
            None
        }
    }

    /// The token that stands `index` tokens further.
    pub fn peek_nth(&self, index: usize) -> (token: Option<&Token>)
        ensures
            token == if self.current + index < self.source.len() {
                Some(&self.source[self.current + index])
            } else {
                None
            },
    {
        if index < self.source.len() && self.current < self.source.len() - index {
            Some(&self.source[self.current + index])
        } else {
            None
        }
    }

    fn kind(&self) -> (kind: TokenKind)
        ensures
            kind == kind_at(self.input(), self.current as int),
    {
        match self.peek() {
            Some(token) => token.typ.kind(),
            None => TokenKind::Eof,
        }
    }

    fn kind_nth(&self, index: usize) -> (kind: TokenKind)
        ensures
            kind == kind_at(self.input(), self.current + index),
    {
        match self.peek_nth(index) {
            Some(token) => token.typ.kind(),
            None => TokenKind::Eof,
        }
    }

    fn text(&self) -> (text: String)
        ensures
            text@ == text_at(self.input(), self.current as int),
    {
        match self.peek() {
            Some(token) => match &token.typ {
                TokenType::Identifier(text) => text.clone(),
                TokenType::String(text) => text.clone(),
                TokenType::Number(text) => text.clone(),
                _ => String::new(),
            },
            None => String::new(),
        }
    }

    /// Goes on to the next token; there is none after the last.
    pub fn advance(&mut self)
        requires
            old(self).wf(),
        ensures
            final(self).wf(),
            final(self).source == old(self).source,
            final(self).values == old(self).values,
            final(self).current == after(old(self).input(), old(self).current as int),
    {
        if self.current < self.source.len() {
            self.current += 1;
        }
    }

    /// Goes past a token of a kind, or fails with an error.
    pub fn consume(&mut self, token_type: TokenKind, error: &str) -> (r: Result<(), ParseError>)
        requires
            old(self).wf(),
        ensures
            final(self).wf(),
            final(self).source == old(self).source,
            final(self).values == old(self).values,
            kind_at(old(self).input(), old(self).current as int) == token_type ==> r is Ok
                && final(self).current == after(old(self).input(), old(self).current as int),
            kind_at(old(self).input(), old(self).current as int) != token_type ==> (r matches Err(
                e,
            ) && e.message@ == error@ && e.line == 1),
    {
        if self.kind() == token_type {
            self.advance();
            Ok(())
        } else {
            Err(ParseError::new(error, 1))
        }
    }

    pub fn at_end(&self) -> (r: bool)
        ensures
            r == (kind_at(self.input(), self.current as int) is Eof),
    {
        self.kind() == TokenKind::Eof
    }

    pub fn parse_expression(&mut self) -> (r: Result<Expression, ParseError>)
        requires
            old(self).wf(),
        ensures
            yields(*old(self), *final(self), r, expression(old(self).input(), old(self).current as int)),
        decreases old(self).source.len() - old(self).current, 17nat,
    {
        self.parse_assignment()
    }

    pub fn parse_assignment(&mut self) -> (r: Result<Expression, ParseError>)
        requires
            old(self).wf(),
        ensures
            yields(*old(self), *final(self), r, assignment(old(self).input(), old(self).current as int)),
        decreases old(self).source.len() - old(self).current, 16nat,
    {
        let left = match self.parse_or() {
            Err(e) => {
                return Err(e);
            },
            Ok(left) => left,
        };
        if self.kind() == TokenKind::Equal {
            self.advance();
            let right = match self.parse_expression() {
                Err(e) => {
                    return Err(e);
                },
                Ok(right) => right,
            };
            proof {
                lemma_view_kind(left);
            }
            let target = match &left {
                Expression::Identifier(_) => true,
                Expression::Member(_) => true,
                _ => false,
            };
            if !target {
                return Err(ParseError::new("Incorrect lvalue", 1));
            }
            return Ok(assignment_of(left, right));
        }
        Ok(left)
    }

    pub fn parse_or(&mut self) -> (r: Result<Expression, ParseError>)
        requires
            old(self).wf(),
        ensures
            yields(*old(self), *final(self), r, or(old(self).input(), old(self).current as int)),
        decreases old(self).source.len() - old(self).current, 15nat,
    {
        let mut rez = match self.parse_and() {
            Err(e) => {
                return Err(e);
            },
            Ok(rez) => rez,
        };
        let ghost goal = or(old(self).input(), old(self).current as int);
        while self.kind() == TokenKind::Or
            invariant
                self.wf(),
                self.source == old(self).source,
                self.values == old(self).values,
                old(self).current < self.current,
                goal == or_rest(self.input(), self.current as int, rez@),
                goal == or(old(self).input(), old(self).current as int),
            decreases self.source.len() - self.current,
        {
            self.advance();
            let right_hand = match self.parse_and() {
                Err(e) => {
                    return Err(e);
                },
                Ok(right) => right,
            };
            rez = binary_of(rez, Operator::Or, right_hand);
        }
        Ok(rez)
    }

    pub fn parse_and(&mut self) -> (r: Result<Expression, ParseError>)
        requires
            old(self).wf(),
        ensures
            yields(*old(self), *final(self), r, and(old(self).input(), old(self).current as int)),
        decreases old(self).source.len() - old(self).current, 14nat,
    {
        let mut rez = match self.parse_eq() {
            Err(e) => {
                return Err(e);
            },
            Ok(rez) => rez,
        };
        let ghost goal = and(old(self).input(), old(self).current as int);
        while self.kind() == TokenKind::And
            invariant
                self.wf(),
                self.source == old(self).source,
                self.values == old(self).values,
                old(self).current < self.current,
                goal == and_rest(self.input(), self.current as int, rez@),
                goal == and(old(self).input(), old(self).current as int),
            decreases self.source.len() - self.current,
        {
            self.advance();
            let right_hand = match self.parse_eq() {
                Err(e) => {
                    return Err(e);
                },
                Ok(right) => right,
            };
            rez = binary_of(rez, Operator::And, right_hand);
        }
        Ok(rez)
    }

    pub fn parse_eq(&mut self) -> (r: Result<Expression, ParseError>)
        requires
            old(self).wf(),
        ensures
            yields(*old(self), *final(self), r, eq(old(self).input(), old(self).current as int)),
        decreases old(self).source.len() - old(self).current, 13nat,
    {
        let left = match self.parse_rel() {
            Err(e) => {
                return Err(e);
            },
            Ok(left) => left,
        };
        if self.kind() == TokenKind::Is {
            self.advance();
            let mut operator = Operator::Eq;
            if self.kind() == TokenKind::Not {
                operator = Operator::NE;
                self.advance();
            }
            let right = match self.parse_rel() {
                Err(e) => {
                    return Err(e);
                },
                Ok(right) => right,
            };
            return Ok(binary_of(left, operator, right));
        }
        Ok(left)
    }

    pub fn parse_rel(&mut self) -> (r: Result<Expression, ParseError>)
        requires
            old(self).wf(),
        ensures
            yields(*old(self), *final(self), r, rel(old(self).input(), old(self).current as int)),
        decreases old(self).source.len() - old(self).current, 12nat,
    {
        let left = match self.parse_term() {
            Err(e) => {
                return Err(e);
            },
            Ok(left) => left,
        };
        let operator = match self.kind() {
            TokenKind::Grater => Some(Operator::Greater),
            TokenKind::Less => Some(Operator::Less),
            TokenKind::GraterEqual => Some(Operator::Ge),
            TokenKind::LessEqual => Some(Operator::Le),
            _ => None,
        };
        if let Some(operator) = operator {
            self.advance();
            let right = match self.parse_term() {
                Err(e) => {
                    return Err(e);
                },
                Ok(right) => right,
            };
            return Ok(binary_of(left, operator, right));
        }
        Ok(left)
    }

    pub fn parse_term(&mut self) -> (r: Result<Expression, ParseError>)
        requires
            old(self).wf(),
        ensures
            yields(*old(self), *final(self), r, term(old(self).input(), old(self).current as int)),
        decreases old(self).source.len() - old(self).current, 11nat,
    {
        let mut rez = match self.parse_factor() {
            Err(e) => {
                return Err(e);
            },
            Ok(rez) => rez,
        };
        let ghost goal = term(old(self).input(), old(self).current as int);
        while self.kind() == TokenKind::Plus || self.kind() == TokenKind::Minus
            invariant
                self.wf(),
                self.source == old(self).source,
                self.values == old(self).values,
                old(self).current < self.current,
                goal == term_rest(self.input(), self.current as int, rez@),
                goal == term(old(self).input(), old(self).current as int),
            decreases self.source.len() - self.current,
        {
            let operator = if self.kind() == TokenKind::Plus {
                Operator::Plus
            } else {
                Operator::Minus
            };
            self.advance();
            let right = match self.parse_factor() {
                Err(e) => {
                    return Err(e);
                },
                Ok(right) => right,
            };
            rez = binary_of(rez, operator, right);
        }
        Ok(rez)
    }

    pub fn parse_factor(&mut self) -> (r: Result<Expression, ParseError>)
        requires
            old(self).wf(),
        ensures
            yields(*old(self), *final(self), r, factor(old(self).input(), old(self).current as int)),
        decreases old(self).source.len() - old(self).current, 10nat,
    {
        let mut rez = match self.parse_unary() {
            Err(e) => {
                return Err(e);
            },
            Ok(rez) => rez,
        };
        let ghost goal = factor(old(self).input(), old(self).current as int);
        while self.kind() == TokenKind::Star || self.kind() == TokenKind::Slash
            invariant
                self.wf(),
                self.source == old(self).source,
                self.values == old(self).values,
                old(self).current < self.current,
                goal == factor_rest(self.input(), self.current as int, rez@),
                goal == factor(old(self).input(), old(self).current as int),
            decreases self.source.len() - self.current,
        {
            let operator = if self.kind() == TokenKind::Slash {
                Operator::Div
            } else {
                Operator::Mul
            };
            self.advance();
            let right = match self.parse_unary() {
                Err(e) => {
                    return Err(e);
                },
                Ok(right) => right,
            };
            rez = binary_of(rez, operator, right);
        }
        Ok(rez)
    }

    pub fn parse_unary(&mut self) -> (r: Result<Expression, ParseError>)
        requires
            old(self).wf(),
        ensures
            yields(*old(self), *final(self), r, unary(old(self).input(), old(self).current as int)),
        decreases old(self).source.len() - old(self).current, 9nat,
    {
        if self.kind() == TokenKind::Minus || self.kind() == TokenKind::Not {
            let operator = if self.kind() == TokenKind::Minus {
                Operator::Minus
            } else {
                Operator::NE
            };
            self.advance();
            let expr = match self.parse_pow() {
                Err(e) => {
                    return Err(e);
                },
                Ok(expr) => expr,
            };
            return Ok(unary_of(operator, expr));
        }
        self.parse_pow()
    }

    pub fn parse_pow(&mut self) -> (r: Result<Expression, ParseError>)
        requires
            old(self).wf(),
        ensures
            yields(*old(self), *final(self), r, pow(old(self).input(), old(self).current as int)),
        decreases old(self).source.len() - old(self).current, 8nat,
    {
        let mut rez = match self.parse_call() {
            Err(e) => {
                return Err(e);
            },
            Ok(rez) => rez,
        };
        let ghost goal = pow(old(self).input(), old(self).current as int);
        while self.kind() == TokenKind::Pow
            invariant
                self.wf(),
                self.source == old(self).source,
                self.values == old(self).values,
                old(self).current < self.current,
                goal == pow_rest(self.input(), self.current as int, rez@),
                goal == pow(old(self).input(), old(self).current as int),
            decreases self.source.len() - self.current,
        {
            self.advance();
            let right = match self.parse_call() {
                Err(e) => {
                    return Err(e);
                },
                Ok(right) => right,
            };
            rez = binary_of(rez, Operator::Pow, right);
        }
        Ok(rez)
    }

    pub fn parse_call(&mut self) -> (r: Result<Expression, ParseError>)
        requires
            old(self).wf(),
        ensures
            yields(*old(self), *final(self), r, call(old(self).input(), old(self).current as int)),
        decreases old(self).source.len() - old(self).current, 7nat,
    {
        let mut rez = match self.parse_primary() {
            Err(e) => {
                return Err(e);
            },
            Ok(rez) => rez,
        };
        let ghost goal = call(old(self).input(), old(self).current as int);
        while self.kind() == TokenKind::LeftBrace || self.kind() == TokenKind::Possesive
            invariant
                self.wf(),
                self.source == old(self).source,
                self.values == old(self).values,
                old(self).current < self.current,
                goal == call_rest(self.input(), self.current as int, rez@),
                goal == call(old(self).input(), old(self).current as int),
            decreases self.source.len() - self.current,
        {
            let next = if self.kind() == TokenKind::LeftBrace {
                self.parse_call_arguments(rez)
            } else {
                self.parse_call_member(rez)
            };
            rez = match next {
                Err(e) => {
                    return Err(e);
                },
                Ok(next) => next,
            };
        }
        Ok(rez)
    }

    /// The call that the arguments at which the parser stands make of an
    /// expression.
    fn parse_call_arguments(&mut self, rez: Expression) -> (r: Result<Expression, ParseError>)
        requires
            old(self).wf(),
            kind_at(old(self).input(), old(self).current as int) is LeftBrace,
        ensures
            final(self).wf(),
            final(self).source == old(self).source,
            final(self).values == old(self).values,
            match r {
                Ok(next) => old(self).current < final(self).current && call_rest(
                    old(self).input(),
                    old(self).current as int,
                    rez@,
                ) == call_rest(final(self).input(), final(self).current as int, next@),
                Err(e) => e.line == 1 && call_rest(
                    old(self).input(),
                    old(self).current as int,
                    rez@,
                ) == Err::<(Formula, int), Seq<char>>(e.message@),
            },
        decreases old(self).source.len() - old(self).current, 1nat,
    {
        proof {
            lemma_view_kind(rez);
        }
        if let Expression::Identifier(name) = &rez {
            let (callee, args) = match self.parse_function_rest(name.clone()) {
                Err(e) => {
                    return Err(e);
                },
                Ok(named) => named,
            };
            Ok(call_of(name_of(callee), args))
        } else {
            self.advance();
            let args = match self.parse_args() {
                Err(e) => {
                    return Err(e);
                },
                Ok(args) => args,
            };
            Ok(call_of(rez, args))
        }
    }

    /// The member that the name after `'s` makes of an expression, or the
    /// call of that member.
    fn parse_call_member(&mut self, rez: Expression) -> (r: Result<Expression, ParseError>)
        requires
            old(self).wf(),
            kind_at(old(self).input(), old(self).current as int) is Possesive,
        ensures
            final(self).wf(),
            final(self).source == old(self).source,
            final(self).values == old(self).values,
            match r {
                Ok(next) => old(self).current < final(self).current && call_rest(
                    old(self).input(),
                    old(self).current as int,
                    rez@,
                ) == call_rest(final(self).input(), final(self).current as int, next@),
                Err(e) => e.line == 1 && call_rest(
                    old(self).input(),
                    old(self).current as int,
                    rez@,
                ) == Err::<(Formula, int), Seq<char>>(e.message@),
            },
        decreases old(self).source.len() - old(self).current, 1nat,
    {
        self.advance();
        let member = match self.parse_primary() {
            Err(e) => {
                return Err(e);
            },
            Ok(member) => member,
        };
        proof {
            lemma_view_kind(member);
        }
        if let Expression::Identifier(name) = &member {
            if self.kind() == TokenKind::LeftBrace {
                let (callee, args) = match self.parse_function_rest(name.clone()) {
                    Err(e) => {
                        return Err(e);
                    },
                    Ok(named) => named,
                };
                Ok(call_of(member_of(rez, text_of(callee)), args))
            } else {
                Ok(member_of(rez, text_of(name.clone())))
            }
        } else {
            Ok(member_of(rez, member))
        }
    }

    /// The rest of the name of a function that is called, after its first
    /// part, and its arguments.
    pub fn parse_function_rest(&mut self, beginning: String) -> (r: Result<
        (String, Vec<Expression>),
        ParseError,
    >)
        requires
            old(self).wf(),
        ensures
            yields_named(
                *old(self),
                *final(self),
                r,
                function_rest(
                    old(self).input(),
                    old(self).current as int,
                    seq![beginning@],
                    Seq::empty(),
                ),
            ),
            r is Ok && kind_at(old(self).input(), old(self).current as int) is LeftBrace
                ==> old(self).current < final(self).current,
        decreases old(self).source.len() - old(self).current, 0nat,
    {
        let mut id_parts: Vec<String> = Vec::new();
        id_parts.push(beginning);
        assert(texts(id_parts@) =~= seq![beginning@]);
        let mut func_args: Vec<Expression> = Vec::new();
        let ghost goal = function_rest(
            old(self).input(),
            old(self).current as int,
            seq![beginning@],
            Seq::empty(),
        );
        loop
            invariant
                self.wf(),
                self.source == old(self).source,
                self.values == old(self).values,
                old(self).current <= self.current,
                kind_at(old(self).input(), old(self).current as int) is LeftBrace && old(
                    self,
                ).current == self.current ==> kind_at(self.input(), self.current as int)
                    is LeftBrace,
                goal == function_rest(
                    self.input(),
                    self.current as int,
                    texts(id_parts@),
                    formulas(func_args, func_args.len() as nat),
                ),
                goal == function_rest(
                    old(self).input(),
                    old(self).current as int,
                    seq![beginning@],
                    Seq::empty(),
                ),
            ensures
                goal == Ok::<((Seq<char>, Seq<Formula>), int), Seq<char>>(
                    (
                        (
                            join_names(texts(id_parts@), id_parts.len() as nat),
                            formulas(func_args, func_args.len() as nat),
                        ),
                        self.current as int,
                    ),
                ),
                self.wf(),
                self.source == old(self).source,
                self.values == old(self).values,
                old(self).current <= self.current,
                kind_at(old(self).input(), old(self).current as int) is LeftBrace ==> old(
                    self,
                ).current < self.current,
            decreases self.source.len() - self.current,
        {
            if self.kind() == TokenKind::LeftBrace {
                self.advance();
                let more = match self.parse_args() {
                    Err(e) => {
                        return Err(e);
                    },
                    Ok(more) => more,
                };
                append_expressions(&mut func_args, more);
            } else if self.kind() == TokenKind::Identifier {
                let ghost before = texts(id_parts@);
                let part = self.text();
                id_parts.push(part);
                assert(texts(id_parts@) =~= before.push(text_at(
                    self.input(),
                    self.current as int,
                )));
                self.advance();
            } else {
                break ;
            }
        }
        Ok((join(&id_parts), func_args))
    }

    /// The arguments of a call, after the opening bracket.
    pub fn parse_args(&mut self) -> (r: Result<Vec<Expression>, ParseError>)
        requires
            old(self).wf(),
        ensures
            yields_all(*old(self), *final(self), r, args(old(self).input(), old(self).current as int)),
        decreases old(self).source.len() - old(self).current, 18nat,
    {
        let mut found: Vec<Expression> = Vec::new();
        if self.kind() == TokenKind::RightBrace {
            self.advance();
            return Ok(found);
        }
        let first = match self.parse_expression() {
            Err(e) => {
                return Err(e);
            },
            Ok(first) => first,
        };
        push_expression(&mut found, first);
        assert(formulas(found, found.len() as nat) =~= seq![first@]);
        let ghost goal = args(old(self).input(), old(self).current as int);
        while self.kind() == TokenKind::Comma
            invariant
                self.wf(),
                self.source == old(self).source,
                self.values == old(self).values,
                old(self).current < self.current,
                goal == args_rest(
                    self.input(),
                    self.current as int,
                    formulas(found, found.len() as nat),
                ),
                goal == args(old(self).input(), old(self).current as int),
            decreases self.source.len() - self.current,
        {
            self.advance();
            let next = match self.parse_expression() {
                Err(e) => {
                    return Err(e);
                },
                Ok(next) => next,
            };
            push_expression(&mut found, next);
        }
        match self.consume(TokenKind::RightBrace, "Expected ')' after arguments definitions") {
            Err(e) => {
                return Err(e);
            },
            Ok(_) => {},
        }
        Ok(found)
    }

    /// The pairs of an object, after the opening bracket.
    pub fn parse_object(&mut self) -> (r: Result<Expression, ParseError>)
        requires
            old(self).wf(),
        ensures
            yields(
                *old(self),
                *final(self),
                r,
                object_rest(
                    old(self).input(),
                    old(self).current as int,
                    Seq::empty(),
                    Seq::empty(),
                ),
            ),
        decreases old(self).source.len() - old(self).current, 19nat,
    {
        let mut keys: Vec<Expression> = Vec::new();
        let mut values: Vec<Expression> = Vec::new();
        let ghost goal = object_rest(
            old(self).input(),
            old(self).current as int,
            Seq::empty(),
            Seq::empty(),
        );
        while self.kind() != TokenKind::RightParen
            invariant
                self.wf(),
                self.source == old(self).source,
                self.values == old(self).values,
                old(self).current <= self.current,
                goal == object_rest(
                    self.input(),
                    self.current as int,
                    formulas(keys, keys.len() as nat),
                    formulas(values, values.len() as nat),
                ),
                goal == object_rest(
                    old(self).input(),
                    old(self).current as int,
                    Seq::empty(),
                    Seq::empty(),
                ),
            decreases self.source.len() - self.current,
        {
            let kind = self.kind();
            if kind == TokenKind::Identifier || kind == TokenKind::String || kind
                == TokenKind::Number {
                let key = text_of(self.text());
                self.advance();
                match self.consume(TokenKind::Colon, "Key value pairs must be separated by :") {
                    Err(e) => {
                        return Err(e);
                    },
                    Ok(_) => {},
                }
                let val = match self.parse_expression() {
                    Err(e) => {
                        return Err(e);
                    },
                    Ok(val) => val,
                };
                push_expression(&mut keys, key);
                push_expression(&mut values, val);
                if self.kind() == TokenKind::Comma {
                    self.advance();
                }
            } else {
                return match self.parse_primary() {
                    Err(e) => Err(e),
                    Ok(_) => Err(
                        ParseError::new("Object key must be an identifier, string or number", 1),
                    ),
                };
            }
        }
        self.advance();
        Ok(object_of(keys, values))
    }

    /// The items of an array, after the opening bracket.
    pub fn parse_array(&mut self) -> (r: Result<Expression, ParseError>)
        requires
            old(self).wf(),
        ensures
            yields(
                *old(self),
                *final(self),
                r,
                array_rest(old(self).input(), old(self).current as int, Seq::empty()),
            ),
        decreases old(self).source.len() - old(self).current, 19nat,
    {
        let mut values: Vec<Expression> = Vec::new();
        let ghost goal = array_rest(old(self).input(), old(self).current as int, Seq::empty());
        while self.kind() != TokenKind::RightSquareBracket
            invariant
                self.wf(),
                self.source == old(self).source,
                self.values == old(self).values,
                old(self).current <= self.current,
                goal == array_rest(
                    self.input(),
                    self.current as int,
                    formulas(values, values.len() as nat),
                ),
                goal == array_rest(old(self).input(), old(self).current as int, Seq::empty()),
            decreases self.source.len() - self.current,
        {
            let expr = match self.parse_expression() {
                Err(e) => {
                    return Err(e);
                },
                Ok(expr) => expr,
            };
            push_expression(&mut values, expr);
            if self.kind() == TokenKind::Comma {
                self.advance();
            }
        }
        self.advance();
        Ok(array_of(values))
    }

    pub fn parse_primary(&mut self) -> (r: Result<Expression, ParseError>)
        requires
            old(self).wf(),
        ensures
            yields(*old(self), *final(self), r, primary(old(self).input(), old(self).current as int)),
        decreases old(self).source.len() - old(self).current, 6nat,
    {
        let kind = self.kind();
        let text = self.text();
        let at = self.current;
        self.advance();
        match kind {
            TokenKind::True => Ok(Expression::Bool(true)),
            TokenKind::False => Ok(Expression::Bool(false)),
            TokenKind::Nil => Ok(Expression::Nil),
            TokenKind::String => Ok(text_of(text)),
            TokenKind::Number => {
                if at < self.values.len() {
                    Ok(Expression::Number(self.values[at]))
                } else {
                    Err(ParseError::new("Number literal has no value", 1))
                }
            },
            TokenKind::Identifier => Ok(name_of(text)),
            TokenKind::LeftParen => self.parse_object(),
            TokenKind::LeftSquareBracket => self.parse_array(),
            TokenKind::LeftBrace => {
                let expr = match self.parse_expression() {
                    Err(e) => {
                        return Err(e);
                    },
                    Ok(expr) => expr,
                };
                match self.consume(TokenKind::RightBrace, "Expected ')' at the end of expression") {
                    Err(e) => {
                        return Err(e);
                    },
                    Ok(_) => {},
                }
                Ok(group_of(expr))
            },
            _ => Err(ParseError::new("Expression expected", 1)),
        }
    }
}

/// True when the parse of a statement ended as the grammar says.
pub open spec fn yields_clause(
    before: Parser,
    now: Parser,
    r: Result<Statement, ParseError>,
    expected: Parsed<Clause>,
) -> bool {
    &&& now.source == before.source
    &&& now.values == before.values
    &&& now.wf()
    &&& match expected {
        Ok((value, place)) => r matches Ok(found) && found@ == value && now.current == place
            && before.current < now.current,
        Err(message) => r matches Err(e) && e.message@ == message && e.line == 1,
    }
}

/// Adds a statement to statements.
pub fn push_statement(stmts: &mut Vec<Statement>, stmt: Statement)
    ensures
        clauses(*final(stmts), final(stmts).len() as nat) == clauses(
            *old(stmts),
            old(stmts).len() as nat,
        ).push(stmt@),
        final(stmts).len() == old(stmts).len() + 1,
{
    let ghost value = stmt@;
    stmts.push(stmt);
    proof {
        lemma_clauses(*stmts, stmts.len() as nat);
        lemma_clauses(*old(stmts), old(stmts).len() as nat);
        assert(clauses(*stmts, stmts.len() as nat) =~= clauses(
            *old(stmts),
            old(stmts).len() as nat,
        ).push(value));
    }
}

fn block_of(statements: Vec<Statement>, is_function: bool) -> (s: Statement)
    ensures
        s@ == if is_function {
            Clause::FunctionBody(clauses(statements, statements.len() as nat))
        } else {
            Clause::Block(clauses(statements, statements.len() as nat))
        },
{
    if is_function {
        Statement::FunctionBody(Box::new(BlockStatement { statements }))
    } else {
        Statement::Block(Box::new(BlockStatement { statements }))
    }
}

fn print_of(expr: Expression) -> (s: Statement)
    ensures
        s@ == Clause::Print(expr@),
{
    Statement::Print(Box::new(PrintStatement { expr }))
}

fn expression_of(expr: Expression) -> (s: Statement)
    ensures
        s@ == Clause::Expression(expr@),
{
    Statement::Expression(Box::new(ExpressionStatement { expr }))
}

fn return_of(value: Option<Expression>) -> (s: Statement)
    ensures
        s@ == Clause::Return(optional_formula(value)),
{
    Statement::Return(Box::new(ReturnStatement { value }))
}

fn if_of(condition: Expression, body: Statement, alternative: Option<Statement>) -> (s: Statement)
    ensures
        s@ == Clause::If(
            condition@,
            Box::new(body@),
            match alternative {
                Some(alternative) => Some(Box::new(alternative@)),
                None => None,
            },
        ),
{
    Statement::If(Box::new(IfStatement { condition, body, alternative }))
}

fn loop_of(body: Statement, alias: String) -> (s: Statement)
    ensures
        s@ == Clause::Loop(Box::new(body@), alias@),
{
    Statement::Loop(Box::new(LoopStatement { body, alias }))
}

fn naming_of(kind: DeclarationKind, variable: String, value: Option<Expression>) -> (d:
    DeclarationStatement)
    ensures
        d@ == (Naming { kind: kind, variable: variable@, value: optional_formula(value) }),
{
    DeclarationStatement { kind, variable, value }
}

fn declared_of(declarations: Vec<DeclarationStatement>) -> (s: Statement)
    ensures
        s@ == declared(namings(declarations@)),
{
    let mut declarations = declarations;
    if declarations.len() == 1 {
        let ghost all = declarations@;
        let declaration = declarations.remove(0);
        assert(declaration@ == namings(all)[0]);
        return Statement::Declaration(declaration);
    }
    Statement::MultiDeclaration(MultiDeclarationStatement { declarations })
}

/// The loop over a range, written as a block.
fn ranged_loop_of(start: Expression, stop: Expression, reverse: bool, alias: String, body: Statement) -> (s:
    Statement)
    ensures
        s@ == ranged_loop(start@, stop@, reverse, alias@, body@),
{
    let (first, last) = if reverse {
        (stop, start)
    } else {
        (start, stop)
    };
    let init_clause = Statement::Declaration(
        naming_of(DeclarationKind::Var, alias.clone(), Some(first)),
    );
    let step = expression_of(
        assignment_of(
            name_of(alias.clone()),
            binary_of(
                name_of(alias.clone()),
                if reverse {
                    Operator::Minus
                } else {
                    Operator::Plus
                },
                Expression::Number(ONE),
            ),
        ),
    );
    let exit = if_of(
        binary_of(
            name_of(alias.clone()),
            if reverse {
                Operator::Le
            } else {
                Operator::Ge
            },
            last,
        ),
        Statement::Break,
        None,
    );
    let ghost body_view = body@;
    let ghost step_view = step@;
    let ghost exit_view = exit@;
    let mut statements: Vec<Statement> = Vec::new();
    push_statement(&mut statements, body);
    push_statement(&mut statements, step);
    push_statement(&mut statements, exit);
    assert(clauses(statements, statements.len() as nat) =~= seq![body_view, step_view, exit_view]);
    let inner = loop_of(block_of(statements, false), alias);
    let ghost init_view = init_clause@;
    let ghost inner_view = inner@;
    let mut outer: Vec<Statement> = Vec::new();
    push_statement(&mut outer, init_clause);
    push_statement(&mut outer, inner);
    assert(clauses(outer, outer.len() as nat) =~= seq![init_view, inner_view]);
    block_of(outer, false)
}

/// A statement is a block exactly when it says one.
pub proof fn lemma_clause_kind(s: Statement)
    ensures
        s is Block <==> s@ is Block,
{
}

impl Parser {
    pub fn parse_statement(&mut self) -> (r: Result<Statement, ParseError>)
        requires
            old(self).wf(),
        ensures
            yields_clause(
                *old(self),
                *final(self),
                r,
                statement(old(self).input(), old(self).current as int),
            ),
        decreases old(self).source.len() - old(self).current, 30nat,
    {
        match self.kind() {
            TokenKind::Break => {
                self.advance();
                match self.consume(TokenKind::Semicolon, "Expected ; at the end of the statement") {
                    Err(e) => Err(e),
                    Ok(_) => Ok(Statement::Break),
                }
            },
            TokenKind::Print => self.parse_print_stmt(),
            TokenKind::Return => self.parse_return_stmt(),
            TokenKind::LeftParen => {
                if self.kind_nth(2) == TokenKind::Colon {
                    self.parse_expression_statement()
                } else {
                    self.parse_block_stmt(false)
                }
            },
            TokenKind::If => self.parse_if_stmt(),
            TokenKind::Loop => self.parse_loop_stmt(),
            TokenKind::Const => self.parse_decl_statement(),
            TokenKind::Var => self.parse_decl_statement(),
            _ => self.parse_expression_statement(),
        }
    }

    /// Ends a statement at its semicolon.
    fn close(&mut self, stmt: Statement) -> (r: Result<Statement, ParseError>)
        requires
            old(self).wf(),
        ensures
            final(self).wf(),
            final(self).source == old(self).source,
            final(self).values == old(self).values,
            match closed(old(self).input(), old(self).current as int, stmt@) {
                Ok((value, place)) => r matches Ok(found) && found@ == value && final(self).current
                    == place && final(self).current >= old(self).current,
                Err(message) => r matches Err(e) && e.message@ == message && e.line == 1,
            },
    {
        match self.consume(TokenKind::Semicolon, "Expected ; at the end of the statement") {
            Err(e) => Err(e),
            Ok(_) => Ok(stmt),
        }
    }

    pub fn parse_print_stmt(&mut self) -> (r: Result<Statement, ParseError>)
        requires
            old(self).wf(),
        ensures
            yields_clause(
                *old(self),
                *final(self),
                r,
                print_stmt(old(self).input(), old(self).current as int),
            ),
        decreases old(self).source.len() - old(self).current, 29nat,
    {
        self.advance();
        let expr = match self.parse_expression() {
            Err(e) => {
                return Err(e);
            },
            Ok(expr) => expr,
        };
        self.close(print_of(expr))
    }

    pub fn parse_return_stmt(&mut self) -> (r: Result<Statement, ParseError>)
        requires
            old(self).wf(),
        ensures
            yields_clause(
                *old(self),
                *final(self),
                r,
                return_stmt(old(self).input(), old(self).current as int),
            ),
        decreases old(self).source.len() - old(self).current, 29nat,
    {
        self.advance();
        if self.kind() == TokenKind::Semicolon {
            self.advance();
            return Ok(return_of(None));
        }
        let expr = match self.parse_expression() {
            Err(e) => {
                return Err(e);
            },
            Ok(expr) => expr,
        };
        self.close(return_of(Some(expr)))
    }

    pub fn parse_expression_statement(&mut self) -> (r: Result<Statement, ParseError>)
        requires
            old(self).wf(),
        ensures
            yields_clause(
                *old(self),
                *final(self),
                r,
                expression_statement(old(self).input(), old(self).current as int),
            ),
        decreases old(self).source.len() - old(self).current, 29nat,
    {
        let expr = match self.parse_expression() {
            Err(e) => {
                return Err(e);
            },
            Ok(expr) => expr,
        };
        self.close(expression_of(expr))
    }

    pub fn parse_if_stmt(&mut self) -> (r: Result<Statement, ParseError>)
        requires
            old(self).wf(),
        ensures
            yields_clause(
                *old(self),
                *final(self),
                r,
                if_stmt(old(self).input(), old(self).current as int),
            ),
        decreases old(self).source.len() - old(self).current, 29nat,
    {
        self.advance();
        let expr = match self.parse_expression() {
            Err(e) => {
                return Err(e);
            },
            Ok(expr) => expr,
        };
        if self.kind() == TokenKind::LeftParen {
            let body = match self.parse_block_stmt(false) {
                Err(e) => {
                    return Err(e);
                },
                Ok(body) => body,
            };
            if self.kind() == TokenKind::Else {
                self.advance();
                let alternative_stmt = match self.parse_statement() {
                    Err(e) => {
                        return Err(e);
                    },
                    Ok(stmt) => stmt,
                };
                Ok(if_of(expr, body, Some(alternative_stmt)))
            } else {
                Ok(if_of(expr, body, None))
            }
        } else {
            Err(ParseError::new("Expected { after if statement condition", 1))
        }
    }

    pub fn parse_block_stmt(&mut self, is_function: bool) -> (r: Result<Statement, ParseError>)
        requires
            old(self).wf(),
        ensures
            yields_clause(
                *old(self),
                *final(self),
                r,
                block_stmt(old(self).input(), old(self).current as int, is_function),
            ),
        decreases old(self).source.len() - old(self).current, 29nat,
    {
        let ghost goal = block_stmt(old(self).input(), old(self).current as int, is_function);
        if self.current >= self.source.len() {
            return Err(ParseError::new("Expected } at the end of a block statement", 1));
        }
        self.advance();
        let mut stmts: Vec<Statement> = Vec::new();
        loop
            invariant_except_break
                goal == block_rest(
                    self.input(),
                    self.current as int,
                    clauses(stmts, stmts.len() as nat),
                    is_function,
                ),
            invariant
                self.wf(),
                self.source == old(self).source,
                self.values == old(self).values,
                old(self).current < self.current,
                goal == block_stmt(old(self).input(), old(self).current as int, is_function),
            ensures
                self.wf(),
                self.source == old(self).source,
                self.values == old(self).values,
                old(self).current < self.current,
                goal == Ok::<(Clause, int), Seq<char>>(
                    (
                        if is_function {
                            Clause::FunctionBody(clauses(stmts, stmts.len() as nat))
                        } else {
                            Clause::Block(clauses(stmts, stmts.len() as nat))
                        },
                        self.current as int,
                    ),
                ),
            decreases self.source.len() - self.current,
        {
            if self.at_end() {
                return Err(ParseError::new("Expected } at the end of a block statement", 1));
            }
            if self.kind() == TokenKind::RightParen {
                self.advance();
                break ;
            }
            let stmt = match self.parse_statement() {
                Err(e) => {
                    return Err(e);
                },
                Ok(stmt) => stmt,
            };
            push_statement(&mut stmts, stmt);
        }
        Ok(block_of(stmts, is_function))
    }

    pub fn parse_decl_statement(&mut self) -> (r: Result<Statement, ParseError>)
        requires
            old(self).wf(),
        ensures
            yields_clause(
                *old(self),
                *final(self),
                r,
                decl_statement(old(self).input(), old(self).current as int),
            ),
        decreases old(self).source.len() - old(self).current, 29nat,
    {
        let ghost goal = decl_statement(old(self).input(), old(self).current as int);
        let declaration_kind = if self.kind() == TokenKind::Var {
            DeclarationKind::Var
        } else {
            DeclarationKind::Const
        };
        self.advance();
        let mut declarations: Vec<DeclarationStatement> = Vec::new();
        assert(namings(declarations@) =~= Seq::empty());
        loop
            invariant_except_break
                goal == decl_rest(
                    self.input(),
                    self.current as int,
                    declaration_kind,
                    namings(declarations@),
                ),
            invariant
                self.wf(),
                self.source == old(self).source,
                self.values == old(self).values,
                old(self).current <= self.current,
                goal == decl_statement(old(self).input(), old(self).current as int),
            ensures
                self.wf(),
                self.source == old(self).source,
                self.values == old(self).values,
                old(self).current < self.current,
                goal == Ok::<(Clause, int), Seq<char>>(
                    (declared(namings(declarations@)), self.current as int),
                ),
            decreases self.source.len() - self.current,
        {
            if self.kind() != TokenKind::Identifier {
                return Err(ParseError::new("Assignee has to be a variable", 1));
            }
            let assignee = self.text();
            self.advance();
            let ghost before = namings(declarations@);
            if self.kind() == TokenKind::Equal {
                self.advance();
                let value = match self.parse_expression() {
                    Err(e) => {
                        return Err(e);
                    },
                    Ok(value) => value,
                };
                let declaration = naming_of(declaration_kind, assignee, Some(value));
                let ghost added = declaration@;
                declarations.push(declaration);
                assert(namings(declarations@) =~= before.push(added));
            } else {
                let declaration = naming_of(declaration_kind, assignee, None);
                let ghost added = declaration@;
                declarations.push(declaration);
                assert(namings(declarations@) =~= before.push(added));
            }
            if self.kind() == TokenKind::Semicolon {
                self.advance();
                break ;
            }
            match self.consume(
                TokenKind::Comma,
                "Expected , in between declaring multiple variables",
            ) {
                Err(e) => {
                    return Err(e);
                },
                Ok(_) => {},
            }
        }
        Ok(declared_of(declarations))
    }

    /// A first expression, and, after two points, a last.
    pub fn parse_range(&mut self) -> (r: Result<Range, ParseError>)
        requires
            old(self).wf(),
        ensures
            final(self).wf(),
            final(self).source == old(self).source,
            final(self).values == old(self).values,
            match range(old(self).input(), old(self).current as int) {
                Ok((value, place)) => r matches Ok(found) && found.start@ == value.0
                    && optional_formula(found.stop) == value.1 && final(self).current == place
                    && old(self).current < final(self).current,
                Err(message) => r matches Err(e) && e.message@ == message && e.line == 1,
            },
        decreases old(self).source.len() - old(self).current, 18nat,
    {
        let start = match self.parse_expression() {
            Err(e) => {
                return Err(e);
            },
            Ok(start) => start,
        };
        if self.kind() == TokenKind::DoubleDot {
            self.advance();
            let stop = match self.parse_expression() {
                Err(e) => {
                    return Err(e);
                },
                Ok(stop) => stop,
            };
            Ok(Range { start, stop: Some(stop) })
        } else {
            Ok(Range { start, stop: None })
        }
    }

    /// The name after `as`, where `as` stands, and else `it`.
    fn parse_loop_alias(&mut self) -> (r: Result<String, ParseError>)
        requires
            old(self).wf(),
        ensures
            final(self).wf(),
            final(self).source == old(self).source,
            final(self).values == old(self).values,
            match loop_alias(old(self).input(), old(self).current as int) {
                Ok((value, place)) => r matches Ok(found) && found@ == value && final(self).current
                    == place && old(self).current <= final(self).current,
                Err(message) => r matches Err(e) && e.message@ == message && e.line == 1,
            },
        decreases old(self).source.len() - old(self).current, 18nat,
    {
        if self.kind() == TokenKind::As {
            self.advance();
            let identifier = match self.parse_expression() {
                Err(e) => {
                    return Err(e);
                },
                Ok(identifier) => identifier,
            };
            proof {
                lemma_view_kind(identifier);
            }
            match identifier {
                Expression::Identifier(id) => Ok(id),
                _ => Err(ParseError::new("Expected identifier after as keyword", 1)),
            }
        } else {
            Ok(String::from_str("it"))
        }
    }

    pub fn parse_loop_stmt(&mut self) -> (r: Result<Statement, ParseError>)
        requires
            old(self).wf(),
        ensures
            yields_clause(
                *old(self),
                *final(self),
                r,
                loop_stmt(old(self).input(), old(self).current as int),
            ),
        decreases old(self).source.len() - old(self).current, 29nat,
    {
        if self.current >= self.source.len() {
            return Err(stuck_error());
        }
        self.advance();
        if self.kind() == TokenKind::LeftParen {
            let body = match self.parse_statement() {
                Err(e) => {
                    return Err(e);
                },
                Ok(body) => body,
            };
            return Ok(loop_of(body, String::from_str("it")));
        }
        let mut iterate_reverse = false;
        if self.kind() == TokenKind::Reverse {
            iterate_reverse = true;
            self.advance();
        }
        let range = match self.parse_range() {
            Err(e) => {
                return Err(e);
            },
            Ok(range) => range,
        };
        let alias = match self.parse_loop_alias() {
            Err(e) => {
                return Err(e);
            },
            Ok(alias) => alias,
        };
        if self.kind() == TokenKind::LeftParen {
            let body = match self.parse_statement() {
                Err(e) => {
                    return Err(e);
                },
                Ok(body) => body,
            };
            proof {
                lemma_clause_kind(body);
            }
            let is_block = match &body {
                Statement::Block(_) => true,
                _ => false,
            };
            if !is_block {
                return Err(ParseError::new("Not a block statement", 1));
            }
            match range.stop {
                Some(stop) => Ok(ranged_loop_of(range.start, stop, iterate_reverse, alias, body)),
                None => Err(ParseError::new("Expected a range after loop", 1)),
            }
        } else {
            Err(ParseError::new("Expected { after loop declaration", 1))
        }
    }

    /// The parameters between round brackets. The parser goes on at the
    /// closing bracket.
    pub fn parse_function_params(&mut self) -> (r: Result<Vec<Identifier>, ParseError>)
        requires
            old(self).wf(),
        ensures
            final(self).wf(),
            final(self).source == old(self).source,
            final(self).values == old(self).values,
            match function_params(old(self).input(), old(self).current as int) {
                Ok((value, place)) => r matches Ok(found) && names(found@) == value
                    && final(self).current == place && old(self).current <= final(self).current,
                Err(message) => r matches Err(e) && e.message@ == message && e.line == 1,
            },
    {
        let ghost goal = function_params(old(self).input(), old(self).current as int);
        self.advance();
        let mut ids: Vec<Identifier> = Vec::new();
        if self.kind() == TokenKind::Identifier {
            ids.push(Identifier { name: self.text(), id: ONE });
            assert(names(ids@) =~= seq![text_at(self.input(), self.current as int)]);
            self.advance();
        } else {
            return Err(ParseError::new("Expected formal function parameter definition", 1));
        }
        while self.kind() != TokenKind::RightBrace
            invariant
                self.wf(),
                self.source == old(self).source,
                self.values == old(self).values,
                old(self).current <= self.current,
                goal == params_rest(self.input(), self.current as int, names(ids@)),
                goal == function_params(old(self).input(), old(self).current as int),
            decreases self.source.len() - self.current,
        {
            match self.consume(TokenKind::Comma, "Expected comma to separate function parameter") {
                Err(e) => {
                    return Err(e);
                },
                Ok(_) => {},
            }
            if self.kind() == TokenKind::Identifier {
                let ghost before = names(ids@);
                ids.push(Identifier { name: self.text(), id: ONE });
                assert(names(ids@) =~= before.push(text_at(self.input(), self.current as int)));
                self.advance();
            } else {
                return Err(ParseError::new("Expected formal function parameter definition", 1));
            }
        }
        Ok(ids)
    }

    pub fn parse_function_declaration(&mut self) -> (r: Result<GlobalStatement, ParseError>)
        requires
            old(self).wf(),
        ensures
            final(self).wf(),
            final(self).source == old(self).source,
            final(self).values == old(self).values,
            match function_declaration(old(self).input(), old(self).current as int) {
                Ok((value, place)) => r matches Ok(found) && found@ == value && final(self).current
                    == place && old(self).current < final(self).current,
                Err(message) => r matches Err(e) && e.message@ == message && e.line == 1,
            },
    {
        let begin = self.current;
        self.advance();
        let mut id_parts: Vec<String> = Vec::new();
        let mut params: Vec<Identifier> = Vec::new();
        if self.kind() == TokenKind::LeftParen {
            return Err(ParseError::new("Expected function name", 1));
        }
        let ghost goal = function_head(
            self.input(),
            self.current as int,
            Seq::empty(),
            Seq::empty(),
        );
        assert(texts(id_parts@) =~= Seq::empty());
        assert(names(params@) =~= Seq::empty());
        while self.kind() != TokenKind::LeftParen
            invariant
                self.wf(),
                self.source == old(self).source,
                self.values == old(self).values,
                old(self).current <= self.current,
                begin == old(self).current,
                goal == function_head(
                    self.input(),
                    self.current as int,
                    texts(id_parts@),
                    names(params@),
                ),
                goal == function_head(
                    old(self).input(),
                    after(old(self).input(), old(self).current as int),
                    Seq::empty(),
                    Seq::empty(),
                ),
                !(kind_at(old(self).input(), after(old(self).input(), old(self).current as int))
                    is LeftParen),
            decreases self.source.len() - self.current,
        {
            if self.kind() == TokenKind::Identifier {
                let ghost before = texts(id_parts@);
                id_parts.push(self.text());
                assert(texts(id_parts@) =~= before.push(text_at(
                    self.input(),
                    self.current as int,
                )));
                self.advance();
                if self.kind() == TokenKind::LeftBrace {
                    let mut local_params = match self.parse_function_params() {
                        Err(e) => {
                            return Err(e);
                        },
                        Ok(local) => local,
                    };
                    let ghost first = names(params@);
                    let ghost second = names(local_params@);
                    params.append(&mut local_params);
                    assert(names(params@) =~= first + second);
                    match self.consume(
                        TokenKind::RightBrace,
                        "Expected right parenthesis after function params declaration",
                    ) {
                        Err(e) => {
                            return Err(e);
                        },
                        Ok(_) => {},
                    }
                }
            } else {
                return Err(
                    ParseError::new(
                        "Cannot have chained params list in the function declaration",
                        1,
                    ),
                );
            }
        }
        if self.current <= begin {
            return Err(stuck_error());
        }
        let body = match self.parse_block_stmt(true) {
            Err(e) => {
                return Err(e);
            },
            Ok(body) => body,
        };
        Ok(
            GlobalStatement::FunctionDeclaration(
                FunctionDeclarationStatement {
                    name: Identifier { name: join(&id_parts), id: ONE },
                    params,
                    body,
                },
            ),
        )
    }

    /// The statements of the tokens.
    pub fn parse_program(&mut self) -> (r: Result<Vec<GlobalStatement>, ParseError>)
        requires
            old(self).wf(),
        ensures
            final(self).source == old(self).source,
            final(self).values == old(self).values,
            match program_rest(old(self).input(), old(self).current as int, Seq::empty()) {
                Ok((value, place)) => r matches Ok(found) && global_clauses(found@) == value,
                Err(message) => r matches Err(e) && e.message@ == message && e.line == 1,
            },
    {
        let mut stmts: Vec<GlobalStatement> = Vec::new();
        let ghost goal = program_rest(old(self).input(), old(self).current as int, Seq::empty());
        assert(global_clauses(stmts@) =~= Seq::empty());
        while !self.at_end()
            invariant
                self.wf(),
                self.source == old(self).source,
                self.values == old(self).values,
                goal == program_rest(self.input(), self.current as int, global_clauses(stmts@)),
                goal == program_rest(old(self).input(), old(self).current as int, Seq::empty()),
            decreases self.source.len() - self.current,
        {
            let ghost before = global_clauses(stmts@);
            if self.kind() == TokenKind::Fun {
                let function = match self.parse_function_declaration() {
                    Err(e) => {
                        return Err(e);
                    },
                    Ok(function) => function,
                };
                let ghost added = function@;
                stmts.push(function);
                assert(global_clauses(stmts@) =~= before.push(added));
            } else {
                let stmt = match self.parse_statement() {
                    Err(e) => {
                        return Err(e);
                    },
                    Ok(stmt) => stmt,
                };
                let ghost added = GlobalClause::Statement(stmt@);
                stmts.push(GlobalStatement::Statement(stmt));
                assert(global_clauses(stmts@) =~= before.push(added));
            }
        }
        Ok(stmts)
    }
}

} // verus!
