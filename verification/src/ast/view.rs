use vstd::prelude::*;
use crate::ast::expression::{Expression, Identifier, Operator};
use crate::ast::statement::{DeclarationKind, DeclarationStatement, GlobalStatement, Statement};

verus! {

/// What an expression says, apart from how it is held in memory.
pub enum Formula {
    Nil,
    Bool(bool),
    Number(u32),
    Text(Seq<char>),
    Identifier(Seq<char>),
    Binary(Box<Formula>, Operator, Box<Formula>),
    Unary(Operator, Box<Formula>),
    Group(Box<Formula>),
    Call(Box<Formula>, Seq<Formula>),
    Member(Box<Formula>, Box<Formula>),
    Object(Seq<Formula>, Seq<Formula>),
    Array(Seq<Formula>),
    Assigment(Box<Formula>, Box<Formula>),
}

/// What a declaration says: its kind, its name, and its value if it has
/// one.
pub struct Naming {
    pub kind: DeclarationKind,
    pub variable: Seq<char>,
    pub value: Option<Formula>,
}

/// What a statement says.
pub enum Clause {
    Print(Formula),
    FunctionBody(Seq<Clause>),
    Break,
    Block(Seq<Clause>),
    Expression(Formula),
    Return(Option<Formula>),
    If(Formula, Box<Clause>, Option<Box<Clause>>),
    Declaration(Naming),
    MultiDeclaration(Seq<Naming>),
    Loop(Box<Clause>, Seq<char>),
}

/// What a statement of the top of a program says.
pub enum GlobalClause {
    Statement(Clause),
    FunctionDeclaration(Seq<char>, Seq<Seq<char>>, Clause),
}

/// What the first `n` of the expressions say.
pub open spec fn formulas(exprs: Vec<Expression>, n: nat) -> Seq<Formula>
    decreases exprs, n,
{
    if n == 0 || n > exprs.len() {
        Seq::empty()
    } else {
        formulas(exprs, (n - 1) as nat).push(exprs[n - 1].view())
    }
}

impl Expression {
    pub open spec fn view(&self) -> Formula
        decreases self, 0nat,
    {
        match *self {
            Expression::Nil => Formula::Nil,
            Expression::Bool(value) => Formula::Bool(value),
            Expression::Number(bits) => Formula::Number(bits),
            Expression::String(text) => Formula::Text(text@),
            Expression::Identifier(name) => Formula::Identifier(name@),
            Expression::Binary(binary) => Formula::Binary(
                Box::new(binary.left.view()),
                binary.operator,
                Box::new(binary.right.view()),
            ),
            Expression::Unary(unary) => Formula::Unary(unary.operator, Box::new(unary.expr.view())),
            Expression::Group(group) => Formula::Group(Box::new(group.expr.view())),
            Expression::Call(call) => Formula::Call(
                Box::new(call.callee.view()),
                formulas(call.args, call.args.len() as nat),
            ),
            Expression::Member(member) => Formula::Member(
                Box::new(member.callee.view()),
                Box::new(member.property.view()),
            ),
            Expression::Object(object) => Formula::Object(
                formulas(object.properties, object.properties.len() as nat),
                formulas(object.values, object.values.len() as nat),
            ),
            Expression::Array(array) => Formula::Array(
                formulas(array.values, array.values.len() as nat),
            ),
            Expression::Assigment(assignment) => Formula::Assigment(
                Box::new(assignment.assignee.view()),
                Box::new(assignment.value.view()),
            ),
        }
    }
}

/// What an expression that may be absent says.
pub open spec fn optional_formula(expr: Option<Expression>) -> Option<Formula> {
    match expr {
        Some(expr) => Some(expr.view()),
        None => None,
    }
}

impl DeclarationStatement {
    pub open spec fn view(&self) -> Naming {
        Naming {
            kind: self.kind,
            variable: self.variable@,
            value: optional_formula(self.value),
        }
    }
}

/// What declarations say.
pub open spec fn namings(decls: Seq<DeclarationStatement>) -> Seq<Naming> {
    Seq::new(decls.len(), |i: int| decls[i].view())
}

/// What the first `n` of the statements say.
pub open spec fn clauses(stmts: Vec<Statement>, n: nat) -> Seq<Clause>
    decreases stmts, n,
{
    if n == 0 || n > stmts.len() {
        Seq::empty()
    } else {
        clauses(stmts, (n - 1) as nat).push(stmts[n - 1].view())
    }
}

impl Statement {
    pub open spec fn view(&self) -> Clause
        decreases self, 0nat,
    {
        match *self {
            Statement::Print(print) => Clause::Print(print.expr.view()),
            Statement::FunctionBody(block) => Clause::FunctionBody(
                clauses(block.statements, block.statements.len() as nat),
            ),
            Statement::Break => Clause::Break,
            Statement::Block(block) => Clause::Block(
                clauses(block.statements, block.statements.len() as nat),
            ),
            Statement::Expression(stmt) => Clause::Expression(stmt.expr.view()),
            Statement::Return(ret) => Clause::Return(optional_formula(ret.value)),
            Statement::If(stmt) => Clause::If(
                stmt.condition.view(),
                Box::new(stmt.body.view()),
                match stmt.alternative {
                    Some(alternative) => Some(Box::new(alternative.view())),
                    None => None,
                },
            ),
            Statement::Declaration(decl) => Clause::Declaration(decl.view()),
            Statement::MultiDeclaration(multi) => Clause::MultiDeclaration(
                namings(multi.declarations@),
            ),
            Statement::Loop(stmt) => Clause::Loop(Box::new(stmt.body.view()), stmt.alias@),
        }
    }
}

/// The names of identifiers.
pub open spec fn names(ids: Seq<Identifier>) -> Seq<Seq<char>> {
    Seq::new(ids.len(), |i: int| ids[i].name@)
}

impl GlobalStatement {
    pub open spec fn view(&self) -> GlobalClause {
        match *self {
            GlobalStatement::Statement(stmt) => GlobalClause::Statement(stmt.view()),
            GlobalStatement::FunctionDeclaration(function) => GlobalClause::FunctionDeclaration(
                function.name.name@,
                names(function.params@),
                function.body.view(),
            ),
        }
    }
}

/// What the statements of a program say.
pub open spec fn global_clauses(stmts: Seq<GlobalStatement>) -> Seq<GlobalClause> {
    Seq::new(stmts.len(), |i: int| stmts[i].view())
}

/// The expressions, as a vector holds them, say what its items say.
pub proof fn lemma_formulas(exprs: Vec<Expression>, n: nat)
    requires
        n <= exprs.len(),
    ensures
        formulas(exprs, n).len() == n,
        forall|i: int| 0 <= i < n ==> formulas(exprs, n)[i] == exprs[i].view(),
    decreases n,
{
    if n > 0 {
        lemma_formulas(exprs, (n - 1) as nat);
    }
}

/// The statements, as a vector holds them, say what its items say.
pub proof fn lemma_clauses(stmts: Vec<Statement>, n: nat)
    requires
        n <= stmts.len(),
    ensures
        clauses(stmts, n).len() == n,
        forall|i: int| 0 <= i < n ==> clauses(stmts, n)[i] == stmts[i].view(),
    decreases n,
{
    if n > 0 {
        lemma_clauses(stmts, (n - 1) as nat);
    }
}

} // verus!
