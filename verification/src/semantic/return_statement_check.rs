use vstd::prelude::*;
use crate::ast::statement::{GlobalStatement, Statement};
use crate::errors::CompilerError;
use crate::semantic::check::{messages, report, Check};

verus! {

/// The walk that finds the returns that stand in no function.
pub struct ReturnStatementCheck {
    pub errors: Vec<CompilerError>,
    pub is_function: bool,
}

pub open spec fn return_message() -> Seq<char> {
    "Cannot return outside function"@
}

/// The errors of a statement: one for each return that stands in no
/// function. `is_function` tells whether the statement stands in one.
pub open spec fn return_errors(stmt: Statement, is_function: bool) -> Seq<Seq<char>>
    decreases stmt, 0nat,
{
    match stmt {
        Statement::Return(_) => if is_function {
            Seq::empty()
        } else {
            seq![return_message()]
        },
        Statement::Block(block) => return_errors_of(block.statements, block.statements.len() as nat, is_function),
        Statement::FunctionBody(block) => return_errors_of(
            block.statements,
            block.statements.len() as nat,
            is_function,
        ),
        Statement::If(stmt) => return_errors(stmt.body, is_function) + match stmt.alternative {
            Some(alternative) => return_errors(alternative, is_function),
            None => Seq::empty(),
        },
        Statement::Loop(stmt) => return_errors(stmt.body, is_function),
        _ => Seq::empty(),
    }
}

/// The errors of the first `n` of the statements, in their order.
pub open spec fn return_errors_of(stmts: Vec<Statement>, n: nat, is_function: bool) -> Seq<Seq<char>>
    decreases stmts, n,
{
    if n == 0 || n > stmts.len() {
        Seq::empty()
    } else {
        return_errors_of(stmts, (n - 1) as nat, is_function) + return_errors(stmts[n - 1], is_function)
    }
}

/// The errors of a statement of the top of a program.
pub open spec fn return_errors_global(stmt: GlobalStatement) -> Seq<Seq<char>> {
    match stmt {
        GlobalStatement::Statement(stmt) => return_errors(stmt, false),
        GlobalStatement::FunctionDeclaration(function) => return_errors(function.body, true),
    }
}

/// The errors of the first `n` statements of a program, in their order.
pub open spec fn return_errors_program(stmts: Seq<GlobalStatement>, n: int) -> Seq<Seq<char>>
    decreases n,
{
    if n <= 0 {
        Seq::empty()
    } else {
        return_errors_program(stmts, n - 1) + return_errors_global(stmts[n - 1])
    }
}

impl ReturnStatementCheck {
    pub fn new() -> (check: Self)
        ensures
            check.errors@.len() == 0,
            !check.is_function,
    {
        Self { errors: Vec::new(), is_function: false }
    }

    pub fn visit_local_statement(&mut self, stmt: &Statement)
        ensures
            final(self).is_function == old(self).is_function,
            messages(final(self).errors@) == messages(old(self).errors@) + return_errors(
                *stmt,
                old(self).is_function,
            ),
        decreases stmt, 0nat,
    {
        match stmt {
            Statement::Return(_) => {
                if !self.is_function {
                    report(&mut self.errors, "Cannot return outside function");
                } else {
                    assert(messages(self.errors@) =~= messages(old(self).errors@) + Seq::empty());
                }
            },
            Statement::Block(block) => {
                self.visit_statements(&block.statements);
            },
            Statement::FunctionBody(block) => {
                self.visit_statements(&block.statements);
            },
            Statement::If(value) => {
                self.visit_local_statement(&value.body);
                let ghost first = messages(self.errors@);
                if let Some(alternative) = &value.alternative {
                    self.visit_local_statement(alternative);
                }
                assert(messages(self.errors@) =~= messages(old(self).errors@) + return_errors(
                    *stmt,
                    old(self).is_function,
                ));
            },
            Statement::Loop(value) => {
                self.visit_local_statement(&value.body);
            },
            _ => {
                assert(messages(self.errors@) =~= messages(old(self).errors@) + Seq::empty());
            },
        }
    }

    fn visit_statements(&mut self, stmts: &Vec<Statement>)
        ensures
            final(self).is_function == old(self).is_function,
            messages(final(self).errors@) == messages(old(self).errors@) + return_errors_of(
                *stmts,
                stmts.len() as nat,
                old(self).is_function,
            ),
        decreases stmts, 1nat,
    {
        let mut i: usize = 0;
        assert(messages(self.errors@) =~= messages(old(self).errors@) + Seq::empty());
        while i < stmts.len()
            invariant
                i <= stmts.len(),
                self.is_function == old(self).is_function,
                messages(self.errors@) == messages(old(self).errors@) + return_errors_of(
                    *stmts,
                    i as nat,
                    old(self).is_function,
                ),
            decreases stmts.len() - i,
        {
            let ghost before = messages(self.errors@);
            self.visit_local_statement(&stmts[i]);
            i = i + 1;
            assert(messages(self.errors@) =~= messages(old(self).errors@) + return_errors_of(
                *stmts,
                i as nat,
                old(self).is_function,
            ));
        }
    }

    /// Walks a statement of the top of a program.
    pub fn visit_statement(&mut self, stmt: &GlobalStatement)
        requires
            !old(self).is_function,
        ensures
            !final(self).is_function,
            messages(final(self).errors@) == messages(old(self).errors@) + return_errors_global(
                *stmt,
            ),
    {
        match stmt {
            GlobalStatement::Statement(value) => self.visit_local_statement(value),
            GlobalStatement::FunctionDeclaration(value) => {
                self.is_function = true;
                self.visit_local_statement(&value.body);
                self.is_function = false;
            },
        }
    }
}

impl Check for ReturnStatementCheck {
    fn get_errors(self) -> (errors: Vec<CompilerError>)
        ensures
            errors == self.errors,
    {
        self.errors
    }
}

/// The returns of a program that stand in no function.
pub fn check_returns(stmts: &Vec<GlobalStatement>) -> (errors: Vec<CompilerError>)
    ensures
        messages(errors@) == return_errors_program(stmts@, stmts.len() as int),
{
    let mut check = ReturnStatementCheck::new();
    assert(messages(check.errors@) =~= Seq::empty());
    let mut i: usize = 0;
    while i < stmts.len()
        invariant
            i <= stmts.len(),
            !check.is_function,
            messages(check.errors@) == return_errors_program(stmts@, i as int),
        decreases stmts.len() - i,
    {
        check.visit_statement(&stmts[i]);
        i = i + 1;
    }
    check.errors
}

} // verus!
