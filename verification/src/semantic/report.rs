use vstd::prelude::*;
use vstd::string::*;
use crate::ast::statement::GlobalStatement;
use crate::builtins::{builtin_names, init_compiler_globals};
use crate::errors::CompilerError;
use crate::semantic::break_statement_check::{break_errors_program, check_breaks};
use crate::semantic::check::messages;
use crate::semantic::declaration_check::{check_declarations, declaration_errors_program};
use crate::semantic::return_statement_check::{check_returns, return_errors_program};

verus! {

/// The report of the first `n` of the messages: each on a line of its own,
/// after a line break, as the message of a compiler error.
pub open spec fn spec_report(found: Seq<Seq<char>>, n: int) -> Seq<char>
    decreases n,
{
    if n <= 0 {
        Seq::empty()
    } else {
        spec_report(found, n - 1) + "\n"@ + ("Compiler Error: "@ + found[n - 1])
    }
}

/// The errors that the three checks find in a program: those of the
/// declarations, then those of the breaks, then those of the returns.
pub open spec fn semantic_errors(stmts: Seq<GlobalStatement>) -> Seq<Seq<char>> {
    declaration_errors_program(stmts, stmts.len() as int, builtin_names()) + break_errors_program(
        stmts,
        stmts.len() as int,
    ) + return_errors_program(stmts, stmts.len() as int)
}

fn append_report(text: String, errors: &Vec<CompilerError>, Ghost(before): Ghost<Seq<Seq<char>>>) -> (r:
    String)
    requires
        text@ == spec_report(before, before.len() as int),
    ensures
        r@ == spec_report(
            before + messages(errors@),
            (before + messages(errors@)).len() as int,
        ),
{
    let mut text = text;
    let mut i: usize = 0;
    assert(before + messages(errors@).subrange(0, 0) =~= before);
    while i < errors.len()
        invariant
            i <= errors.len(),
            text@ == spec_report(
                before + messages(errors@).subrange(0, i as int),
                before.len() + i,
            ),
        decreases errors.len() - i,
    {
        let ghost so_far = before + messages(errors@).subrange(0, i as int);
        let ghost next = before + messages(errors@).subrange(0, i + 1);
        proof {
            lemma_report_prefix(so_far, next, before.len() + i);
            assert(next[before.len() + i] == errors@[i as int].message@);
        }
        let line = errors[i].get_message();
        text = text.concat("\n");
        text = text.concat(line.as_str());
        assert(text@ =~= spec_report(next, before.len() + i + 1));
        i = i + 1;
    }
    assert(messages(errors@).subrange(0, i as int) =~= messages(errors@));
    text
}

proof fn lemma_report_prefix(a: Seq<Seq<char>>, b: Seq<Seq<char>>, n: int)
    requires
        0 <= n <= a.len(),
        n <= b.len(),
        forall|i: int| 0 <= i < n ==> a[i] == b[i],
    ensures
        spec_report(a, n) == spec_report(b, n),
    decreases n,
{
    if n > 0 {
        lemma_report_prefix(a, b, n - 1);
    }
}

/// Runs the three checks on a program. Where they find errors, the result
/// is their report.
pub fn run_all_semantic_checks(stmts: &Vec<GlobalStatement>) -> (r: Result<(), String>)
    ensures
        r is Ok <==> semantic_errors(stmts@).len() == 0,
        r matches Err(text) ==> text@ == spec_report(
            semantic_errors(stmts@),
            semantic_errors(stmts@).len() as int,
        ),
{
    let std_lib = init_compiler_globals();
    assert(crate::compiler::texts(std_lib@) =~= builtin_names());
    let first = check_declarations(stmts, std_lib);
    let second = check_breaks(stmts);
    let third = check_returns(stmts);
    let errors = String::new();
    let ghost none: Seq<Seq<char>> = Seq::empty();
    let errors = append_report(errors, &first, Ghost(none));
    assert(none + messages(first@) =~= messages(first@));
    let errors = append_report(errors, &second, Ghost(messages(first@)));
    let errors = append_report(errors, &third, Ghost(messages(first@) + messages(second@)));
    assert(semantic_errors(stmts@) =~= messages(first@) + messages(second@) + messages(third@));
    if first.len() > 0 || second.len() > 0 || third.len() > 0 {
        return Err(errors);
    }
    Ok(())
}

} // verus!
