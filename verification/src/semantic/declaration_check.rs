use vstd::prelude::*;
use crate::ast::expression::Expression;
use crate::ast::statement::{DeclarationStatement, GlobalStatement, Statement};
use crate::compiler::{lemma_name_position_is, texts};
use crate::errors::CompilerError;
use crate::semantic::check::{messages, report, Check};
use crate::codegen::name_position;

verus! {

/// The walk that finds the declarations and the assignments that take a
/// name of the host's functions.
pub struct DeclarationCheck {
    pub errors: Vec<CompilerError>,
    pub std_lib: Vec<String>,
}

pub open spec fn declare_message() -> Seq<char> {
    "Cannot declare a variable with a name from std lib"@
}

pub open spec fn reassign_message() -> Seq<char> {
    "Cannot reassign a variable with name from std lib"@
}

/// True when a name is one of the names.
pub open spec fn is_among(names: Seq<Seq<char>>, name: Seq<char>) -> bool {
    name_position(names, name, 0) < names.len()
}

/// The errors of an expression: one for each assignment, anywhere in it,
/// to one of the names.
pub open spec fn assignment_errors(expr: Expression, names: Seq<Seq<char>>) -> Seq<Seq<char>>
    decreases expr, 0nat,
{
    match expr {
        Expression::Call(call) => assignment_errors(call.callee, names) + assignment_errors_of(
            call.args,
            call.args.len() as nat,
            names,
        ),
        Expression::Assigment(assignment) => (match assignment.assignee {
            Expression::Identifier(name) => if is_among(names, name@) {
                seq![reassign_message()]
            } else {
                Seq::empty()
            },
            _ => assignment_errors(assignment.assignee, names),
        }) + assignment_errors(assignment.value, names),
        Expression::Binary(binary) => assignment_errors(binary.left, names) + assignment_errors(
            binary.right,
            names,
        ),
        Expression::Unary(unary) => assignment_errors(unary.expr, names),
        Expression::Group(group) => assignment_errors(group.expr, names),
        Expression::Member(member) => assignment_errors(member.callee, names) + assignment_errors(
            member.property,
            names,
        ),
        Expression::Object(object) => assignment_errors_of(
            object.properties,
            object.properties.len() as nat,
            names,
        ) + assignment_errors_of(object.values, object.values.len() as nat, names),
        Expression::Array(array) => assignment_errors_of(
            array.values,
            array.values.len() as nat,
            names,
        ),
        _ => Seq::empty(),
    }
}

/// The errors of the first `n` of the expressions, in their order.
pub open spec fn assignment_errors_of(exprs: Vec<Expression>, n: nat, names: Seq<Seq<char>>) -> Seq<
    Seq<char>,
>
    decreases exprs, n,
{
    if n == 0 || n > exprs.len() {
        Seq::empty()
    } else {
        assignment_errors_of(exprs, (n - 1) as nat, names) + assignment_errors(exprs[n - 1], names)
    }
}

/// The errors of an expression that may be absent.
pub open spec fn optional_errors(expr: Option<Expression>, names: Seq<Seq<char>>) -> Seq<Seq<char>> {
    match expr {
        Some(expr) => assignment_errors(expr, names),
        None => Seq::empty(),
    }
}

/// The errors of a declaration: one where it declares one of the names, and
/// those of its value.
pub open spec fn declared_errors(decl: DeclarationStatement, names: Seq<Seq<char>>) -> Seq<
    Seq<char>,
> {
    (if is_among(names, decl.variable@) {
        seq![declare_message()]
    } else {
        Seq::empty()
    }) + optional_errors(decl.value, names)
}

/// The errors of the first `n` of the declarations, in their order.
pub open spec fn declared_errors_of(decls: Vec<DeclarationStatement>, n: nat, names: Seq<Seq<char>>) -> Seq<
    Seq<char>,
>
    decreases n,
{
    if n == 0 || n > decls.len() {
        Seq::empty()
    } else {
        declared_errors_of(decls, (n - 1) as nat, names) + declared_errors(decls[n - 1], names)
    }
}

/// The errors of a statement: those of its declarations and of its
/// expressions, in their order.
pub open spec fn declaration_errors(stmt: Statement, names: Seq<Seq<char>>) -> Seq<Seq<char>>
    decreases stmt, 0nat,
{
    match stmt {
        Statement::Print(print) => assignment_errors(print.expr, names),
        Statement::FunctionBody(block) => declaration_errors_of(
            block.statements,
            block.statements.len() as nat,
            names,
        ),
        Statement::Break => Seq::empty(),
        Statement::Block(block) => declaration_errors_of(
            block.statements,
            block.statements.len() as nat,
            names,
        ),
        Statement::Expression(stmt) => assignment_errors(stmt.expr, names),
        Statement::Return(ret) => optional_errors(ret.value, names),
        Statement::If(stmt) => assignment_errors(stmt.condition, names) + declaration_errors(
            stmt.body,
            names,
        ) + (match stmt.alternative {
            Some(alternative) => declaration_errors(alternative, names),
            None => Seq::empty(),
        }),
        Statement::Declaration(decl) => declared_errors(decl, names),
        Statement::MultiDeclaration(multi) => declared_errors_of(
            multi.declarations,
            multi.declarations.len() as nat,
            names,
        ),
        Statement::Loop(stmt) => declaration_errors(stmt.body, names),
    }
}

/// The errors of the first `n` of the statements, in their order.
pub open spec fn declaration_errors_of(stmts: Vec<Statement>, n: nat, names: Seq<Seq<char>>) -> Seq<
    Seq<char>,
>
    decreases stmts, n,
{
    if n == 0 || n > stmts.len() {
        Seq::empty()
    } else {
        declaration_errors_of(stmts, (n - 1) as nat, names) + declaration_errors(
            stmts[n - 1],
            names,
        )
    }
}

/// The errors of a statement of the top of a program.
pub open spec fn declaration_errors_global(stmt: GlobalStatement, names: Seq<Seq<char>>) -> Seq<
    Seq<char>,
> {
    match stmt {
        GlobalStatement::Statement(stmt) => declaration_errors(stmt, names),
        GlobalStatement::FunctionDeclaration(function) => declaration_errors(function.body, names),
    }
}

/// The errors of the first `n` statements of a program, in their order.
pub open spec fn declaration_errors_program(
    stmts: Seq<GlobalStatement>,
    n: int,
    names: Seq<Seq<char>>,
) -> Seq<Seq<char>>
    decreases n,
{
    if n <= 0 {
        Seq::empty()
    } else {
        declaration_errors_program(stmts, n - 1, names) + declaration_errors_global(
            stmts[n - 1],
            names,
        )
    }
}

impl DeclarationCheck {
    pub open spec fn names(&self) -> Seq<Seq<char>> {
        texts(self.std_lib@)
    }

    pub fn new(std_lib: Vec<String>) -> (check: Self)
        ensures
            check.errors@.len() == 0,
            check.std_lib == std_lib,
    {
        Self { errors: Vec::new(), std_lib }
    }

    fn is_builtin(&self, name: &String) -> (r: bool)
        ensures
            r == is_among(self.names(), name@),
    {
        let mut i: usize = 0;
        while i < self.std_lib.len()
            invariant
                i <= self.std_lib.len(),
                forall|j: int| 0 <= j < i ==> self.std_lib[j]@ != name@,
            decreases self.std_lib.len() - i,
        {
            if self.std_lib[i] == *name {
                proof {
                    lemma_name_position_is(self.names(), name@, 0, i as int);
                }
                return true;
            }
            i = i + 1;
        }
        proof {
            lemma_name_position_is(self.names(), name@, 0, i as int);
        }
        false
    }

    pub fn visit_expression(&mut self, expr: &Expression)
        ensures
            final(self).std_lib == old(self).std_lib,
            messages(final(self).errors@) == messages(old(self).errors@) + assignment_errors(
                *expr,
                old(self).names(),
            ),
        decreases expr, 0nat,
    {
        let ghost start = messages(self.errors@);
        let ghost names = self.names();
        match expr {
            Expression::Call(value) => {
                self.visit_expression(&value.callee);
                self.visit_expressions(&value.args);
            },
            Expression::Assigment(value) => {
                match &value.assignee {
                    Expression::Identifier(ident) => {
                        if self.is_builtin(ident) {
                            report(
                                &mut self.errors,
                                "Cannot reassign a variable with name from std lib",
                            );
                        }
                    },
                    _ => {
                        self.visit_expression(&value.assignee);
                    },
                }
                self.visit_expression(&value.value);
            },
            Expression::Binary(value) => {
                self.visit_expression(&value.left);
                self.visit_expression(&value.right);
            },
            Expression::Unary(value) => {
                self.visit_expression(&value.expr);
            },
            Expression::Group(value) => {
                self.visit_expression(&value.expr);
            },
            Expression::Member(value) => {
                self.visit_expression(&value.callee);
                self.visit_expression(&value.property);
            },
            Expression::Object(value) => {
                self.visit_expressions(&value.properties);
                self.visit_expressions(&value.values);
            },
            Expression::Array(value) => {
                self.visit_expressions(&value.values);
            },
            _ => {},
        }
        assert(messages(self.errors@) =~= start + assignment_errors(*expr, names));
    }

    fn visit_expressions(&mut self, exprs: &Vec<Expression>)
        ensures
            final(self).std_lib == old(self).std_lib,
            messages(final(self).errors@) == messages(old(self).errors@) + assignment_errors_of(
                *exprs,
                exprs.len() as nat,
                old(self).names(),
            ),
        decreases exprs, 1nat,
    {
        let mut i: usize = 0;
        assert(messages(self.errors@) =~= messages(old(self).errors@) + Seq::empty());
        while i < exprs.len()
            invariant
                i <= exprs.len(),
                self.std_lib == old(self).std_lib,
                messages(self.errors@) == messages(old(self).errors@) + assignment_errors_of(
                    *exprs,
                    i as nat,
                    old(self).names(),
                ),
            decreases exprs.len() - i,
        {
            self.visit_expression(&exprs[i]);
            i = i + 1;
            assert(messages(self.errors@) =~= messages(old(self).errors@) + assignment_errors_of(
                *exprs,
                i as nat,
                old(self).names(),
            ));
        }
    }

    fn visit_optional(&mut self, expr: &Option<Expression>)
        ensures
            final(self).std_lib == old(self).std_lib,
            messages(final(self).errors@) == messages(old(self).errors@) + optional_errors(
                *expr,
                old(self).names(),
            ),
    {
        match expr {
            Some(value) => self.visit_expression(value),
            None => {
                assert(messages(self.errors@) =~= messages(old(self).errors@) + Seq::empty());
            },
        }
    }

    pub fn visit_declaration_statement(&mut self, stmt: &DeclarationStatement)
        ensures
            final(self).std_lib == old(self).std_lib,
            messages(final(self).errors@) == messages(old(self).errors@) + declared_errors(
                *stmt,
                old(self).names(),
            ),
    {
        if self.is_builtin(&stmt.variable) {
            report(&mut self.errors, "Cannot declare a variable with a name from std lib");
        }
        self.visit_optional(&stmt.value);
        assert(messages(self.errors@) =~= messages(old(self).errors@) + declared_errors(
            *stmt,
            old(self).names(),
        ));
    }

    fn visit_declarations(&mut self, decls: &Vec<DeclarationStatement>)
        ensures
            final(self).std_lib == old(self).std_lib,
            messages(final(self).errors@) == messages(old(self).errors@) + declared_errors_of(
                *decls,
                decls.len() as nat,
                old(self).names(),
            ),
    {
        let mut i: usize = 0;
        assert(messages(self.errors@) =~= messages(old(self).errors@) + Seq::empty());
        while i < decls.len()
            invariant
                i <= decls.len(),
                self.std_lib == old(self).std_lib,
                messages(self.errors@) == messages(old(self).errors@) + declared_errors_of(
                    *decls,
                    i as nat,
                    old(self).names(),
                ),
            decreases decls.len() - i,
        {
            self.visit_declaration_statement(&decls[i]);
            i = i + 1;
            assert(messages(self.errors@) =~= messages(old(self).errors@) + declared_errors_of(
                *decls,
                i as nat,
                old(self).names(),
            ));
        }
    }

    pub fn visit_local_statement(&mut self, stmt: &Statement)
        ensures
            final(self).std_lib == old(self).std_lib,
            messages(final(self).errors@) == messages(old(self).errors@) + declaration_errors(
                *stmt,
                old(self).names(),
            ),
        decreases stmt, 0nat,
    {
        let ghost start = messages(self.errors@);
        let ghost names = self.names();
        match stmt {
            Statement::Print(value) => self.visit_expression(&value.expr),
            Statement::FunctionBody(value) => self.visit_statements(&value.statements),
            Statement::Break => {},
            Statement::Block(value) => self.visit_statements(&value.statements),
            Statement::Expression(value) => self.visit_expression(&value.expr),
            Statement::Return(value) => self.visit_optional(&value.value),
            Statement::If(value) => {
                self.visit_expression(&value.condition);
                self.visit_local_statement(&value.body);
                if let Some(alternative) = &value.alternative {
                    self.visit_local_statement(alternative);
                }
            },
            Statement::Declaration(value) => self.visit_declaration_statement(value),
            Statement::MultiDeclaration(value) => self.visit_declarations(&value.declarations),
            Statement::Loop(value) => self.visit_local_statement(&value.body),
        }
        assert(messages(self.errors@) =~= start + declaration_errors(*stmt, names));
    }

    fn visit_statements(&mut self, stmts: &Vec<Statement>)
        ensures
            final(self).std_lib == old(self).std_lib,
            messages(final(self).errors@) == messages(old(self).errors@) + declaration_errors_of(
                *stmts,
                stmts.len() as nat,
                old(self).names(),
            ),
        decreases stmts, 1nat,
    {
        let mut i: usize = 0;
        assert(messages(self.errors@) =~= messages(old(self).errors@) + Seq::empty());
        while i < stmts.len()
            invariant
                i <= stmts.len(),
                self.std_lib == old(self).std_lib,
                messages(self.errors@) == messages(old(self).errors@) + declaration_errors_of(
                    *stmts,
                    i as nat,
                    old(self).names(),
                ),
            decreases stmts.len() - i,
        {
            self.visit_local_statement(&stmts[i]);
            i = i + 1;
            assert(messages(self.errors@) =~= messages(old(self).errors@) + declaration_errors_of(
                *stmts,
                i as nat,
                old(self).names(),
            ));
        }
    }

    /// Walks a statement of the top of a program.
    pub fn visit_statement(&mut self, stmt: &GlobalStatement)
        ensures
            final(self).std_lib == old(self).std_lib,
            messages(final(self).errors@) == messages(old(self).errors@)
                + declaration_errors_global(*stmt, old(self).names()),
    {
        match stmt {
            GlobalStatement::Statement(value) => self.visit_local_statement(value),
            GlobalStatement::FunctionDeclaration(value) => self.visit_local_statement(&value.body),
        }
    }
}

impl Check for DeclarationCheck {
    fn get_errors(self) -> (errors: Vec<CompilerError>)
        ensures
            errors == self.errors,
    {
        self.errors
    }
}

/// The declarations and assignments of a program that take one of the
/// names.
pub fn check_declarations(stmts: &Vec<GlobalStatement>, std_lib: Vec<String>) -> (errors: Vec<
    CompilerError,
>)
    ensures
        messages(errors@) == declaration_errors_program(
            stmts@,
            stmts.len() as int,
            texts(std_lib@),
        ),
{
    let mut check = DeclarationCheck::new(std_lib);
    assert(messages(check.errors@) =~= Seq::empty());
    let mut i: usize = 0;
    while i < stmts.len()
        invariant
            i <= stmts.len(),
            check.std_lib == std_lib,
            messages(check.errors@) == declaration_errors_program(
                stmts@,
                i as int,
                texts(std_lib@),
            ),
        decreases stmts.len() - i,
    {
        check.visit_statement(&stmts[i]);
        i = i + 1;
    }
    check.errors
}

} // verus!
