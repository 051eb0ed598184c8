use vstd::prelude::*;
use crate::ast::statement::{GlobalStatement, Statement};
use crate::errors::CompilerError;
use crate::semantic::check::{messages, report, Check};

verus! {

/// The walk that finds the breaks that stand in no loop.
pub struct BreakStatementCheck {
    pub errors: Vec<CompilerError>,
    pub is_loop: bool,
}

pub open spec fn break_message() -> Seq<char> {
    "Break statement outside loop is not allowed"@
}

/// The errors of a statement: one for each break that stands in no loop.
/// `is_loop` tells whether the statement stands in one; the body of a
/// function stands in none, wherever the function is declared.
pub open spec fn break_errors(stmt: Statement, is_loop: bool) -> Seq<Seq<char>>
    decreases stmt, 0nat,
{
    match stmt {
        Statement::Break => if is_loop {
            Seq::empty()
        } else {
            seq![break_message()]
        },
        Statement::Block(block) => break_errors_of(block.statements, block.statements.len() as nat, is_loop),
        Statement::FunctionBody(block) => break_errors_of(
            block.statements,
            block.statements.len() as nat,
            false,
        ),
        Statement::If(stmt) => break_errors(stmt.body, is_loop) + match stmt.alternative {
            Some(alternative) => break_errors(alternative, is_loop),
            None => Seq::empty(),
        },
        Statement::Loop(stmt) => break_errors(stmt.body, true),
        _ => Seq::empty(),
    }
}

/// The errors of the first `n` of the statements, in their order.
pub open spec fn break_errors_of(stmts: Vec<Statement>, n: nat, is_loop: bool) -> Seq<Seq<char>>
    decreases stmts, n,
{
    if n == 0 || n > stmts.len() {
        Seq::empty()
    } else {
        break_errors_of(stmts, (n - 1) as nat, is_loop) + break_errors(stmts[n - 1], is_loop)
    }
}

/// The errors of a statement of the top of a program.
pub open spec fn break_errors_global(stmt: GlobalStatement) -> Seq<Seq<char>> {
    match stmt {
        GlobalStatement::Statement(stmt) => break_errors(stmt, false),
        GlobalStatement::FunctionDeclaration(function) => break_errors(function.body, false),
    }
}

/// The errors of the first `n` statements of a program, in their order.
pub open spec fn break_errors_program(stmts: Seq<GlobalStatement>, n: int) -> Seq<Seq<char>>
    decreases n,
{
    if n <= 0 {
        Seq::empty()
    } else {
        break_errors_program(stmts, n - 1) + break_errors_global(stmts[n - 1])
    }
}

impl BreakStatementCheck {
    pub fn new() -> (check: Self)
        ensures
            check.errors@.len() == 0,
            !check.is_loop,
    {
        Self { errors: Vec::new(), is_loop: false }
    }

    pub fn visit_local_statement(&mut self, stmt: &Statement)
        ensures
            final(self).is_loop == old(self).is_loop,
            messages(final(self).errors@) == messages(old(self).errors@) + break_errors(
                *stmt,
                old(self).is_loop,
            ),
        decreases stmt, 0nat,
    {
        match stmt {
            Statement::Break => {
                if !self.is_loop {
                    report(&mut self.errors, "Break statement outside loop is not allowed");
                } else {
                    assert(messages(self.errors@) =~= messages(old(self).errors@) + Seq::empty());
                }
            },
            Statement::Block(block) => {
                self.visit_statements(&block.statements);
            },
            Statement::FunctionBody(block) => {
                let outer = self.is_loop;
                self.is_loop = false;
                self.visit_statements(&block.statements);
                self.is_loop = outer;
            },
            Statement::If(value) => {
                self.visit_local_statement(&value.body);
                let ghost first = messages(self.errors@);
                if let Some(alternative) = &value.alternative {
                    self.visit_local_statement(alternative);
                }
                assert(messages(self.errors@) =~= messages(old(self).errors@) + break_errors(
                    *stmt,
                    old(self).is_loop,
                ));
            },
            Statement::Loop(value) => {
                let outer = self.is_loop;
                self.is_loop = true;
                self.visit_local_statement(&value.body);
                self.is_loop = outer;
            },
            _ => {
                assert(messages(self.errors@) =~= messages(old(self).errors@) + Seq::empty());
            },
        }
    }

    fn visit_statements(&mut self, stmts: &Vec<Statement>)
        ensures
            final(self).is_loop == old(self).is_loop,
            messages(final(self).errors@) == messages(old(self).errors@) + break_errors_of(
                *stmts,
                stmts.len() as nat,
                old(self).is_loop,
            ),
        decreases stmts, 1nat,
    {
        let mut i: usize = 0;
        assert(messages(self.errors@) =~= messages(old(self).errors@) + Seq::empty());
        while i < stmts.len()
            invariant
                i <= stmts.len(),
                self.is_loop == old(self).is_loop,
                messages(self.errors@) == messages(old(self).errors@) + break_errors_of(
                    *stmts,
                    i as nat,
                    old(self).is_loop,
                ),
            decreases stmts.len() - i,
        {
            let ghost before = messages(self.errors@);
            self.visit_local_statement(&stmts[i]);
            i = i + 1;
            assert(messages(self.errors@) =~= messages(old(self).errors@) + break_errors_of(
                *stmts,
                i as nat,
                old(self).is_loop,
            ));
        }
    }

    /// Walks a statement of the top of a program.
    pub fn visit_statement(&mut self, stmt: &GlobalStatement)
        requires
            !old(self).is_loop,
        ensures
            !final(self).is_loop,
            messages(final(self).errors@) == messages(old(self).errors@) + break_errors_global(
                *stmt,
            ),
    {
        match stmt {
            GlobalStatement::Statement(value) => self.visit_local_statement(value),
            GlobalStatement::FunctionDeclaration(value) => self.visit_local_statement(&value.body),
        }
    }
}

impl Check for BreakStatementCheck {
    fn get_errors(self) -> (errors: Vec<CompilerError>)
        ensures
            errors == self.errors,
    {
        self.errors
    }
}

/// The breaks of a program that stand in no loop.
pub fn check_breaks(stmts: &Vec<GlobalStatement>) -> (errors: Vec<CompilerError>)
    ensures
        messages(errors@) == break_errors_program(stmts@, stmts.len() as int),
{
    let mut check = BreakStatementCheck::new();
    assert(messages(check.errors@) =~= Seq::empty());
    let mut i: usize = 0;
    while i < stmts.len()
        invariant
            i <= stmts.len(),
            !check.is_loop,
            messages(check.errors@) == break_errors_program(stmts@, i as int),
        decreases stmts.len() - i,
    {
        check.visit_statement(&stmts[i]);
        i = i + 1;
    }
    check.errors
}

} // verus!
