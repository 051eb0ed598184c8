use vstd::prelude::*;
use crate::bytecode::{
    OP_DECLARE_GLOBAL, OP_GET, OP_GET_GLOBAL, OP_JUMP, OP_JUMP_IF_FALSE, OP_PUSH, OP_SET,
    OP_SET_GLOBAL,
};
use crate::bytecode::{spec_slot_bytes, OP_POP};
use crate::bytes::overwrite;
use crate::ast::expression::{
    ArrayExpression, AssignmentExpression, BinaryExpression, CallExpression, Expression,
    MemberExpression, ObjectExpression, UnaryExpression,
};
use crate::ast::statement::{
    BlockStatement, DeclarationStatement, FunctionDeclarationStatement, GlobalStatement,
    IfStatement, LoopStatement, Statement,
};
use crate::bytecode::{
    OP_ACCESS, OP_ALLOCATE, OP_ALLOCATE_ARRAY, OP_CALL, OP_DECLARE, OP_END_FUNCTION, OP_PRINT,
    OP_RETURN, OP_SET_PROPERTY,
};
use crate::env::{scopes_bind, Scope};
use crate::bytes::spec_word_bytes;
use crate::env::scopes_get;
use crate::heap::{interned_content, spec_intern};
use crate::codegen::{
    array_expression, assignment_expression, binary_expression, block_statement, break_jump,
    call_expression, count, declaration, declarations, declare_signature, emit, expression,
    expressions, frame_scopes, function_body, function_declaration, global_statement, hash,
    if_end, if_statement, jump, leave, loop_end, loop_statement, member_expression,
    name_position, number, object_expression, operator_code, parameter_names, patch, patches,
    placeholder, pops, program, read_name, signature_position, statement, statements,
    string_constant, target_bytes, unary_code, unary_expression, write_name, Draft, Outcome,
    Scene,
};
use vstd::utf8::encode_utf8;
use crate::number::{
    index_pattern, lemma_index_pattern, spec_from_le_bytes, spec_le_bytes, spec_to_index,
    EXACT_LIMIT,
};

verus! {

/// The number of bytes of the instruction that starts at `at`, operands
/// included.
pub open spec fn instruction_len(code: Seq<u8>, at: int) -> int {
    let op = code[at];
    if op == OP_PUSH {
        if at + 1 >= code.len() {
            2
        } else {
            let tag = code[at + 1];
            if tag == OP_GET {
                3
            } else if tag == OP_GET_GLOBAL {
                4
            } else if tag == 1 {
                6
            } else if tag == 2 {
                3
            } else if tag == 3 {
                7
            } else if tag == 4 {
                10
            } else {
                2
            }
        }
    } else if op == OP_JUMP || op == OP_JUMP_IF_FALSE {
        5
    } else if op == OP_DECLARE_GLOBAL || op == OP_SET_GLOBAL {
        3
    } else if op == OP_SET {
        2
    } else {
        1
    }
}

/// True when the instructions that are read one after another from `from`
/// on come to `at`.
pub open spec fn lands(code: Seq<u8>, from: int, at: int) -> bool
    decreases at - from,
{
    if from >= at {
        from == at
    } else if from + instruction_len(code, from) > at {
        false
    } else {
        lands(code, from + instruction_len(code, from), at)
    }
}

/// True when `at` is where an instruction of the code starts, or where the
/// code ends after a whole instruction.
pub open spec fn is_boundary(code: Seq<u8>, at: int) -> bool {
    0 <= at <= code.len() && lands(code, 0, at)
}

pub open spec fn is_jump(op: u8) -> bool {
    op == OP_JUMP || op == OP_JUMP_IF_FALSE
}

/// The index that the four bytes at `at` hold.
pub open spec fn target_of(code: Seq<u8>, at: int) -> int {
    spec_to_index(spec_from_le_bytes(code.subrange(at, at + 4))) as int
}

/// Every jump of the code has its four bytes, and they hold where an
/// instruction starts, or where the code ends.
pub open spec fn jumps_closed(code: Seq<u8>) -> bool {
    forall|i: int|
        #![trigger is_boundary(code, i)]
        is_boundary(code, i) && i < code.len() && is_jump(code[i]) ==> i + 5 <= code.len()
            && is_boundary(code, target_of(code, i + 1))
}

/// The code is made of whole instructions, and its jumps are closed.
pub open spec fn well_laid(code: Seq<u8>) -> bool {
    is_boundary(code, code.len() as int) && jumps_closed(code)
}

/// True when `b` has, up to `n`, the instructions of `a`, but for their
/// operands.
pub open spec fn agree(a: Seq<u8>, b: Seq<u8>, n: int) -> bool {
    &&& n <= a.len()
    &&& n <= b.len()
    &&& forall|i: int|
        #![trigger lands(a, 0, i)]
        0 <= i < n && lands(a, 0, i) ==> b[i] == a[i] && (a[i] == OP_PUSH && i + 1 < n ==> b[i + 1]
            == a[i + 1])
}

pub proof fn lemma_len_positive(code: Seq<u8>, at: int)
    ensures
        1 <= instruction_len(code, at) <= 10,
        code[at] == OP_PUSH ==> instruction_len(code, at) >= 2,
{
}

/// Of two places to which the instructions come, the later is reached from
/// the earlier.
pub proof fn lemma_chain(code: Seq<u8>, from: int, x: int, y: int)
    requires
        lands(code, from, x),
        lands(code, from, y),
        from <= x <= y,
    ensures
        lands(code, x, y),
    decreases x - from,
{
    if from < x {
        lemma_len_positive(code, from);
        lemma_chain(code, from + instruction_len(code, from), x, y);
    }
}

/// The instruction at a boundary ends at or before every later boundary.
pub proof fn lemma_next(code: Seq<u8>, i: int, n: int)
    requires
        lands(code, 0, i),
        lands(code, 0, n),
        0 <= i < n,
    ensures
        i + instruction_len(code, i) <= n,
        lands(code, i + instruction_len(code, i), n),
        lands(code, 0, i + instruction_len(code, i)),
{
    lemma_chain(code, 0, i, n);
    lemma_len_positive(code, i);
    lemma_step(code, 0, i);
}

/// After the instruction at a boundary comes a boundary.
pub proof fn lemma_step(code: Seq<u8>, from: int, x: int)
    requires
        lands(code, from, x),
        from <= x,
    ensures
        lands(code, from, x + instruction_len(code, x)),
    decreases x - from,
{
    lemma_len_positive(code, x);
    if from < x {
        lemma_len_positive(code, from);
        lemma_step(code, from + instruction_len(code, from), x);
    } else {
        assert(lands(code, x + instruction_len(code, x), x + instruction_len(code, x)));
    }
}

/// Codes that agree have the same instruction at each boundary.
pub proof fn lemma_same_len(a: Seq<u8>, b: Seq<u8>, n: int, i: int)
    requires
        agree(a, b, n),
        lands(a, 0, n),
        lands(a, 0, i),
        0 <= i < n,
    ensures
        instruction_len(b, i) == instruction_len(a, i),
        b[i] == a[i],
{
    lemma_next(a, i, n);
    lemma_len_positive(a, i);
}

/// Codes that agree have the same boundaries: those of the first are
/// boundaries of the second.
pub proof fn lemma_lands_forth(a: Seq<u8>, b: Seq<u8>, n: int, from: int, at: int)
    requires
        agree(a, b, n),
        lands(a, 0, n),
        lands(a, 0, from),
        lands(a, from, at),
        0 <= from <= at <= n,
    ensures
        lands(b, from, at),
    decreases at - from,
{
    if from < at {
        lemma_same_len(a, b, n, from);
        lemma_next(a, from, n);
        lemma_len_positive(a, from);
        lemma_lands_forth(a, b, n, from + instruction_len(a, from), at);
    }
}

/// And those of the second, up to `n`, are boundaries of the first.
pub proof fn lemma_lands_back(a: Seq<u8>, b: Seq<u8>, n: int, from: int, at: int)
    requires
        agree(a, b, n),
        lands(a, 0, n),
        lands(a, 0, from),
        lands(b, from, at),
        0 <= from <= at <= n,
    ensures
        lands(a, from, at),
    decreases at - from,
{
    if from < at {
        lemma_same_len(a, b, n, from);
        lemma_next(a, from, n);
        lemma_len_positive(a, from);
        lemma_lands_back(a, b, n, from + instruction_len(a, from), at);
    }
}

/// Codes that agree up to a boundary have the same boundaries up to it.
pub proof fn lemma_agree_boundaries(a: Seq<u8>, b: Seq<u8>, n: int, i: int)
    requires
        agree(a, b, n),
        is_boundary(a, n),
        0 <= i <= n,
    ensures
        lands(a, 0, i) <==> lands(b, 0, i),
{
    if lands(a, 0, i) {
        lemma_lands_forth(a, b, n, 0, i);
    }
    if lands(b, 0, i) {
        lemma_lands_back(a, b, n, 0, i);
    }
}

/// To agree is transitive.
pub proof fn lemma_agree_trans(a: Seq<u8>, b: Seq<u8>, c: Seq<u8>, n: int, m: int)
    requires
        agree(a, b, n),
        agree(b, c, m),
        is_boundary(a, n),
        n <= m,
    ensures
        agree(a, c, n),
{
    assert forall|i: int| #![trigger lands(a, 0, i)] 0 <= i < n && lands(a, 0, i) implies c[i]
        == a[i] && (a[i] == OP_PUSH && i + 1 < n ==> c[i + 1] == a[i + 1]) by {
        lemma_agree_boundaries(a, b, n, i);
        assert(lands(b, 0, i));
    }
}

/// The boundaries past a boundary `n` are those to which the instructions
/// come from `n`.
pub proof fn lemma_from_boundary(code: Seq<u8>, n: int, i: int)
    requires
        lands(code, 0, n),
        0 <= n <= i,
    ensures
        lands(code, 0, i) <==> lands(code, n, i),
    decreases n,
{
    if lands(code, 0, i) {
        lemma_chain(code, 0, n, i);
    }
    if lands(code, n, i) {
        lemma_join(code, 0, n, i);
    }
}

pub proof fn lemma_join(code: Seq<u8>, from: int, n: int, i: int)
    requires
        lands(code, from, n),
        lands(code, n, i),
        from <= n <= i,
    ensures
        lands(code, from, i),
    decreases n - from,
{
    if from < n {
        lemma_len_positive(code, from);
        lemma_join(code, from + instruction_len(code, from), n, i);
    }
}

/// True when `more` is one whole instruction.
pub open spec fn one_instruction(more: Seq<u8>) -> bool {
    more.len() >= 1 && more.len() == instruction_len(more, 0)
}

/// What one whole instruction after a code of whole instructions makes: a
/// code of whole instructions with one boundary more.
pub proof fn lemma_append_one(a: Seq<u8>, more: Seq<u8>)
    requires
        is_boundary(a, a.len() as int),
        one_instruction(more),
    ensures
        agree(a, a + more, a.len() as int),
        is_boundary(a + more, (a + more).len() as int),
        instruction_len(a + more, a.len() as int) == more.len(),
        forall|i: int|
            #![trigger is_boundary(a + more, i)]
            is_boundary(a + more, i) <==> (is_boundary(a, i) || i == a.len() + more.len()),
{
    let b = a + more;
    let n = a.len() as int;
    assert forall|i: int| #![trigger lands(a, 0, i)] 0 <= i < n && lands(a, 0, i) implies b[i]
        == a[i] && (a[i] == OP_PUSH && i + 1 < n ==> b[i + 1] == a[i + 1]) by {}
    assert(agree(a, b, n));
    lemma_lands_forth(a, b, n, 0, n);
    lemma_len_positive(more, 0);
    assert(b[n] == more[0]);
    if more[0] == OP_PUSH {
        assert(b[n + 1] == more[1]);
    }
    assert(instruction_len(b, n) == more.len());
    lemma_step(b, 0, n);
    assert forall|i: int| #![trigger is_boundary(b, i)] is_boundary(b, i) <==> (is_boundary(a, i)
        || i == n + more.len()) by {
        if 0 <= i <= n {
            lemma_agree_boundaries(a, b, n, i);
        } else if n < i <= b.len() {
            lemma_from_boundary(b, n, i);
            lemma_from_boundary(b, n, n + more.len());
            if lands(b, n, i) {
                assert(lands(b, n + more.len(), i));
            }
        }
    }
}

/// What the bytes of a target hold is the target.
pub proof fn lemma_target_written(code: Seq<u8>, at: int, target: nat)
    requires
        0 <= at,
        at + 4 <= code.len(),
        target < EXACT_LIMIT,
    ensures
        target_of(overwrite(code, at, spec_le_bytes(index_pattern(target))), at) == target,
{
    let b = overwrite(code, at, spec_le_bytes(index_pattern(target)));
    assert(b.subrange(at, at + 4) =~= spec_le_bytes(index_pattern(target)));
    lemma_index_pattern(target as usize);
}

/// Four zero bytes hold the target zero.
pub proof fn lemma_target_zero(code: Seq<u8>, at: int)
    requires
        0 <= at,
        at + 4 <= code.len(),
        code[at] == 0,
        code[at + 1] == 0,
        code[at + 2] == 0,
        code[at + 3] == 0,
    ensures
        target_of(code, at) == 0,
{
    let bytes = code.subrange(at, at + 4);
    assert(spec_from_le_bytes(bytes) == 0);
    assert(crate::number::magnitude(0) == 0);
    assert(crate::number::exponent(0) == 0);
}

/// A jump instruction appended to a well laid code whose target is a
/// boundary of that code leaves the code well laid; so does any other
/// instruction.
pub proof fn lemma_append_well_laid(a: Seq<u8>, more: Seq<u8>)
    requires
        well_laid(a),
        one_instruction(more),
        is_jump(more[0]) ==> is_boundary(a, target_of(more, 1)),
    ensures
        well_laid(a + more),
        agree(a, a + more, a.len() as int),
{
    let b = a + more;
    let n = a.len() as int;
    lemma_append_one(a, more);
    assert forall|i: int|
        #![trigger is_boundary(b, i)]
        is_boundary(b, i) && i < b.len() && is_jump(b[i]) implies i + 5 <= b.len() && is_boundary(
            b,
            target_of(b, i + 1),
        ) by {
        assert(is_boundary(a, i) || i == n + more.len());
        if i < n {
            assert(b[i] == a[i]);
            assert(is_boundary(a, i));
            assert(b.subrange(i + 1, i + 5) =~= a.subrange(i + 1, i + 5));
            assert(is_boundary(a, target_of(a, i + 1)));
            assert(is_boundary(b, target_of(a, i + 1)));
        } else {
            assert(i == n);
            assert(b[n] == more[0]);
            assert(more.len() == 5);
            assert(b.subrange(n + 1, n + 5) =~= more.subrange(1, 5));
            assert(is_boundary(b, target_of(more, 1)));
        }
    }
}

/// True when the four bytes at `place` are the target of a jump, or the
/// offset of a function constant.
pub open spec fn patchable(code: Seq<u8>, place: int) -> bool {
    ||| (place >= 1 && is_boundary(code, place - 1) && is_jump(code[place - 1]) && place + 4
        <= code.len())
    ||| (place >= 2 && is_boundary(code, place - 2) && code[place - 2] == OP_PUSH && code[place
        - 1] == 3 && place + 5 <= code.len())
}

/// Writing the length of a well laid code over a target leaves the code
/// well laid, with the same instructions.
pub proof fn lemma_patch_well_laid(a: Seq<u8>, place: int)
    requires
        well_laid(a),
        patchable(a, place),
        a.len() < EXACT_LIMIT,
    ensures
        well_laid(overwrite(a, place, spec_le_bytes(index_pattern(a.len())))),
        agree(a, overwrite(a, place, spec_le_bytes(index_pattern(a.len()))), a.len() as int),
{
    let n = a.len() as int;
    let patch = spec_le_bytes(index_pattern(a.len()));
    let b = overwrite(a, place, patch);
    let head = if place >= 1 && is_boundary(a, place - 1) && is_jump(a[place - 1]) && place + 4
        <= a.len() {
        place - 1
    } else {
        place - 2
    };
    lemma_len_positive(a, head);
    assert(head < place && place + 4 <= head + instruction_len(a, head));
    assert forall|i: int| #![trigger lands(a, 0, i)] 0 <= i < n && lands(a, 0, i) implies b[i]
        == a[i] && (a[i] == OP_PUSH && i + 1 < n ==> b[i + 1] == a[i + 1]) by {
        lemma_len_positive(a, i);
        if i < head {
            lemma_next(a, i, head);
        } else if i > head {
            lemma_next(a, head, i);
        }
    }
    assert(agree(a, b, n));
    lemma_lands_forth(a, b, n, 0, n);
    assert forall|i: int|
        #![trigger is_boundary(b, i)]
        is_boundary(b, i) && i < b.len() && is_jump(b[i]) implies i + 5 <= b.len() && is_boundary(
            b,
            target_of(b, i + 1),
        ) by {
        lemma_agree_boundaries(a, b, n, i);
        assert(is_boundary(a, i));
        lemma_same_len(a, b, n, i);
        if i == head {
            lemma_target_written(a, place, a.len());
            assert(target_of(b, i + 1) == n);
        } else {
            lemma_len_positive(a, i);
            if i < head {
                lemma_next(a, i, head);
            } else {
                lemma_next(a, head, i);
            }
            assert(b.subrange(i + 1, i + 5) =~= a.subrange(i + 1, i + 5));
            let target = target_of(a, i + 1);
            assert(is_boundary(a, target));
            lemma_agree_boundaries(a, b, n, target);
        }
    }
}

/// What can be patched in a code can be patched in a code that agrees with
/// it.
pub proof fn lemma_patchable_kept(a: Seq<u8>, b: Seq<u8>, place: int)
    requires
        is_boundary(a, a.len() as int),
        agree(a, b, a.len() as int),
        patchable(a, place),
    ensures
        patchable(b, place),
{
    let n = a.len() as int;
    if place >= 1 && is_boundary(a, place - 1) && is_jump(a[place - 1]) && place + 4 <= a.len() {
        lemma_agree_boundaries(a, b, n, place - 1);
        lemma_same_len(a, b, n, place - 1);
    } else {
        lemma_agree_boundaries(a, b, n, place - 2);
        lemma_same_len(a, b, n, place - 2);
        lemma_next(a, place - 2, n);
    }
}

/// True when the four bytes at `place` are the target of a jump that
/// leaves a loop.
pub open spec fn jump_place(code: Seq<u8>, place: int) -> bool {
    place >= 1 && is_boundary(code, place - 1) && code[place - 1] == OP_JUMP && place + 4
        <= code.len()
}

/// What holds of the draft of a compiler between two instructions: the code
/// is well laid, and each of the places that wait for the end of a loop is
/// the target of a jump.
#[verifier::opaque]
pub open spec fn tidy(d: Draft) -> bool {
    &&& well_laid(d.code)
    &&& forall|k: int, j: int|
        #![trigger d.break_stmt[k][j]]
        0 <= k < d.break_stmt.len() && 0 <= j < d.break_stmt[k].len() ==> jump_place(
            d.code,
            d.break_stmt[k][j] as int,
        )
}

/// True when the code of `b` has the instructions of the code of `a`, but
/// for their operands, and then more.
#[verifier::opaque]
pub open spec fn keeps(a: Draft, b: Draft) -> bool {
    agree(a.code, b.code, a.code.len() as int)
}

/// True when `b` keeps the code of `a` and has as many open loops.
pub open spec fn grows(a: Draft, b: Draft) -> bool {
    keeps(a, b) && a.break_stmt.len() == b.break_stmt.len()
}

pub proof fn lemma_tidy_code(d: Draft)
    requires
        tidy(d),
    ensures
        well_laid(d.code),
        is_boundary(d.code, d.code.len() as int),
        is_boundary(d.code, 0),
{
    reveal(tidy);
}

/// A draft with the same code and the same waiting places is as tidy.
pub proof fn lemma_tidy_same(a: Draft, b: Draft)
    requires
        tidy(a),
        a.code == b.code,
        a.break_stmt == b.break_stmt,
    ensures
        tidy(b),
        grows(a, b),
{
    reveal(tidy);
    reveal(keeps);
}

pub proof fn lemma_keeps_trans(a: Draft, b: Draft, c: Draft)
    requires
        tidy(a),
        keeps(a, b),
        keeps(b, c),
    ensures
        keeps(a, c),
{
    reveal(tidy);
    reveal(keeps);
    lemma_agree_trans(a.code, b.code, c.code, a.code.len() as int, b.code.len() as int);
}

pub proof fn lemma_grows_trans(a: Draft, b: Draft, c: Draft)
    requires
        tidy(a),
        grows(a, b),
        grows(b, c),
    ensures
        grows(a, c),
{
    lemma_keeps_trans(a, b, c);
}

/// The places that wait in a well laid code wait in a code that agrees
/// with it.
pub proof fn lemma_places_kept(a: Draft, code: Seq<u8>)
    requires
        tidy(a),
        agree(a.code, code, a.code.len() as int),
    ensures
        forall|k: int, j: int|
            #![trigger a.break_stmt[k][j]]
            0 <= k < a.break_stmt.len() && 0 <= j < a.break_stmt[k].len() ==> jump_place(
                code,
                a.break_stmt[k][j] as int,
            ),
{
    reveal(tidy);
    let n = a.code.len() as int;
    assert forall|k: int, j: int|
        #![trigger a.break_stmt[k][j]]
        0 <= k < a.break_stmt.len() && 0 <= j < a.break_stmt[k].len() implies jump_place(
        code,
        a.break_stmt[k][j] as int,
    ) by {
        let place = a.break_stmt[k][j] as int;
        assert(jump_place(a.code, place));
        lemma_agree_boundaries(a.code, code, n, place - 1);
        lemma_same_len(a.code, code, n, place - 1);
    }
}

/// One whole instruction more leaves a draft tidy; a jump must go to a
/// boundary of the code so far.
pub proof fn lemma_appended(a: Draft, b: Draft, more: Seq<u8>)
    requires
        tidy(a),
        b.code == a.code + more,
        b.break_stmt == a.break_stmt,
        one_instruction(more),
        is_jump(more[0]) ==> is_boundary(a.code, target_of(more, 1)),
    ensures
        tidy(b),
        grows(a, b),
{
    lemma_tidy_code(a);
    lemma_append_well_laid(a.code, more);
    lemma_places_kept(a, b.code);
    reveal(tidy);
    reveal(keeps);
}

pub proof fn lemma_emitted(a: Draft, more: Seq<u8>)
    requires
        tidy(a),
        one_instruction(more),
        !is_jump(more[0]),
    ensures
        tidy(emit(a, more)),
        grows(a, emit(a, more)),
{
    lemma_appended(a, emit(a, more), more);
}

/// Two instructions, one after the other.
pub proof fn lemma_emitted_two(a: Draft, first: Seq<u8>, second: Seq<u8>)
    requires
        tidy(a),
        one_instruction(first),
        !is_jump(first[0]),
        one_instruction(second),
        !is_jump(second[0]),
    ensures
        tidy(emit(a, first + second)),
        grows(a, emit(a, first + second)),
{
    let b = emit(a, first);
    lemma_emitted(a, first);
    let c = emit(a, first + second);
    assert(c.code =~= b.code + second);
    lemma_appended(b, c, second);
    lemma_grows_trans(a, b, c);
}

/// A jump whose target waits to be patched: the place of the target can be
/// patched.
pub proof fn lemma_jump_emitted(a: Draft, op: u8)
    requires
        tidy(a),
        is_jump(op),
    ensures
        tidy(emit(a, seq![op] + placeholder())),
        grows(a, emit(a, seq![op] + placeholder())),
        patchable(emit(a, seq![op] + placeholder()).code, (a.code.len() + 1) as int),
        op == OP_JUMP ==> jump_place(
            emit(a, seq![op] + placeholder()).code,
            (a.code.len() + 1) as int,
        ),
{
    let more = seq![op] + placeholder();
    let b = emit(a, more);
    lemma_tidy_code(a);
    assert(more.len() == 5 && more[0] == op);
    lemma_target_zero(more, 1);
    lemma_appended(a, b, more);
    lemma_append_one(a.code, more);
    assert(is_boundary(b.code, a.code.len() as int));
    assert(b.code[a.code.len() as int] == op);
}

/// Writing the length of the code over a target leaves a draft tidy.
pub proof fn lemma_patched(a: Draft, place: int)
    requires
        tidy(a),
        patchable(a.code, place),
        patch(a, place) is Ok,
    ensures
        tidy(patch(a, place)->Ok_0),
        grows(a, patch(a, place)->Ok_0),
{
    let b = patch(a, place)->Ok_0;
    lemma_tidy_code(a);
    lemma_patch_well_laid(a.code, place);
    lemma_places_kept(a, b.code);
    reveal(tidy);
    reveal(keeps);
}

pub proof fn lemma_patchable_grows(a: Draft, b: Draft, place: int)
    requires
        tidy(a),
        keeps(a, b),
        patchable(a.code, place),
    ensures
        patchable(b.code, place),
{
    lemma_tidy_code(a);
    reveal(keeps);
    lemma_patchable_kept(a.code, b.code, place);
}

pub proof fn lemma_boundary_grows(a: Draft, b: Draft, i: int)
    requires
        tidy(a),
        keeps(a, b),
        is_boundary(a.code, i),
    ensures
        is_boundary(b.code, i),
{
    lemma_tidy_code(a);
    reveal(keeps);
    lemma_agree_boundaries(a.code, b.code, a.code.len() as int, i);
}

/// What the slot of a global makes of a draft: two bytes more.
pub proof fn lemma_hash_code(d: Draft, name: Seq<char>)
    requires
        hash(d, name) is Ok,
    ensures
        hash(d, name)->Ok_0.code == d.code + spec_slot_bytes(
            name_position(d.globals, name, 0) as u16,
        ),
        hash(d, name)->Ok_0.break_stmt == d.break_stmt,
{
}

/// An instruction that ends with the slot of a global.
pub proof fn lemma_hashed(a: Draft, prefix: Seq<u8>, name: Seq<char>)
    requires
        tidy(a),
        prefix == seq![OP_PUSH, OP_GET_GLOBAL] || prefix == seq![OP_SET_GLOBAL] || prefix == seq![
            OP_DECLARE_GLOBAL,
        ],
        hash(emit(a, prefix), name) is Ok,
    ensures
        tidy(hash(emit(a, prefix), name)->Ok_0),
        grows(a, hash(emit(a, prefix), name)->Ok_0),
{
    let m = hash(emit(a, prefix), name)->Ok_0;
    lemma_hash_code(emit(a, prefix), name);
    let slot = spec_slot_bytes(name_position(emit(a, prefix).globals, name, 0) as u16);
    let more = prefix + slot;
    assert(m.code =~= a.code + more);
    assert(more[0] == prefix[0]);
    if prefix.len() == 2 {
        assert(more[1] == prefix[1]);
    }
    lemma_appended(a, m, more);
}

/// `n` pops leave a draft tidy.
pub proof fn lemma_popped(a: Draft, n: nat)
    requires
        tidy(a),
    ensures
        tidy(emit(a, pops(n))),
        grows(a, emit(a, pops(n))),
    decreases n,
{
    if n == 0 {
        assert(emit(a, pops(0)).code =~= a.code);
        lemma_tidy_same(a, emit(a, pops(0)));
    } else {
        let b = emit(a, pops((n - 1) as nat));
        lemma_popped(a, (n - 1) as nat);
        let c = emit(a, pops(n));
        assert(c.code =~= b.code + seq![OP_POP]);
        lemma_appended(b, c, seq![OP_POP]);
        lemma_grows_trans(a, b, c);
    }
}

/// A new loop has no jumps that wait.
pub proof fn lemma_loop_opened(a: Draft)
    requires
        tidy(a),
    ensures
        tidy(Draft { break_stmt: a.break_stmt.push(Seq::empty()), ..a }),
        keeps(a, Draft { break_stmt: a.break_stmt.push(Seq::empty()), ..a }),
{
    reveal(tidy);
    reveal(keeps);
    let b = Draft { break_stmt: a.break_stmt.push(Seq::empty()), ..a };
    assert forall|k: int, j: int|
        #![trigger b.break_stmt[k][j]]
        0 <= k < b.break_stmt.len() && 0 <= j < b.break_stmt[k].len() implies jump_place(
        b.code,
        b.break_stmt[k][j] as int,
    ) by {
        assert(k < a.break_stmt.len());
        assert(b.break_stmt[k][j] == a.break_stmt[k][j]);
    }
}

/// A jump out of the innermost loop leaves a draft tidy.
pub proof fn lemma_break(a: Draft)
    requires
        tidy(a),
        break_jump(a) is Ok,
    ensures
        tidy(break_jump(a)->Ok_0),
        grows(a, break_jump(a)->Ok_0),
{
    let b = break_jump(a)->Ok_0;
    let jumped = emit(a, seq![OP_JUMP] + placeholder());
    lemma_jump_emitted(a, OP_JUMP);
    assert(b.code =~= jumped.code);
    reveal(tidy);
    reveal(keeps);
    let place = (a.code.len() + 1) as usize;
    assert forall|k: int, j: int|
        #![trigger b.break_stmt[k][j]]
        0 <= k < b.break_stmt.len() && 0 <= j < b.break_stmt[k].len() implies jump_place(
        b.code,
        b.break_stmt[k][j] as int,
    ) by {
        if k == a.break_stmt.len() - 1 && j == a.break_stmt[k].len() {
            assert(b.break_stmt[k][j] == place);
        } else {
            assert(b.break_stmt[k][j] == a.break_stmt[k][j]);
            assert(jump_place(jumped.code, jumped.break_stmt[k][j] as int));
        }
    }
}

/// Patching places that can be patched leaves a draft tidy.
pub proof fn lemma_patched_all(a: Draft, places: Seq<usize>, n: int)
    requires
        tidy(a),
        0 <= n <= places.len(),
        forall|j: int| 0 <= j < places.len() ==> patchable(a.code, #[trigger] places[j] as int),
        patches(a, places, n) is Ok,
    ensures
        tidy(patches(a, places, n)->Ok_0),
        grows(a, patches(a, places, n)->Ok_0),
    decreases n,
{
    if n <= 0 {
        lemma_tidy_same(a, a);
    } else {
        lemma_patched_all(a, places, n - 1);
        let m = patches(a, places, n - 1)->Ok_0;
        lemma_patchable_grows(a, m, places[n - 1] as int);
        lemma_patched(m, places[n - 1] as int);
        lemma_grows_trans(a, m, patch(m, places[n - 1] as int)->Ok_0);
    }
}

/// The end of a loop leaves a draft tidy, with one open loop less.
pub proof fn lemma_loop_closed(m: Draft, begin: nat)
    requires
        tidy(m),
        is_boundary(m.code, begin as int),
        loop_end(m, begin) is Ok,
    ensures
        tidy(loop_end(m, begin)->Ok_0),
        keeps(m, loop_end(m, begin)->Ok_0),
        loop_end(m, begin)->Ok_0.break_stmt.len() + 1 == m.break_stmt.len(),
{
    let more = seq![OP_JUMP] + target_bytes(begin);
    let jumped = emit(m, more);
    assert(more.len() == 5 && more[0] == OP_JUMP);
    assert(more.subrange(1, 5) =~= target_bytes(begin));
    lemma_index_pattern(begin as usize);
    assert(target_of(more, 1) == begin);
    lemma_appended(m, jumped, more);
    let places = jumped.break_stmt.last();
    let popped = Draft { break_stmt: jumped.break_stmt.drop_last(), ..jumped };
    reveal(tidy);
    reveal(keeps);
    assert forall|k: int, j: int|
        #![trigger popped.break_stmt[k][j]]
        0 <= k < popped.break_stmt.len() && 0 <= j < popped.break_stmt[k].len() implies jump_place(
        popped.code,
        popped.break_stmt[k][j] as int,
    ) by {
        assert(popped.break_stmt[k][j] == jumped.break_stmt[k][j]);
    }
    assert(tidy(popped));
    assert forall|j: int| 0 <= j < places.len() implies patchable(
        popped.code,
        #[trigger] places[j] as int,
    ) by {
        assert(places[j] == jumped.break_stmt[jumped.break_stmt.len() - 1][j]);
        assert(jump_place(jumped.code, places[j] as int));
    }
    lemma_patched_all(popped, places, places.len() as int);
    let b = loop_end(m, begin)->Ok_0;
    assert(keeps(popped, b));
    assert(agree(m.code, popped.code, m.code.len() as int));
    lemma_agree_trans(m.code, popped.code, b.code, m.code.len() as int, popped.code.len() as int);
}

/// The constant of a function, whose offset waits to be patched.
pub proof fn lemma_constant_emitted(a: Draft, arity: u8)
    requires
        tidy(a),
    ensures
        tidy(emit(a, seq![OP_PUSH, 3u8] + placeholder() + seq![arity])),
        grows(a, emit(a, seq![OP_PUSH, 3u8] + placeholder() + seq![arity])),
        patchable(
            emit(a, seq![OP_PUSH, 3u8] + placeholder() + seq![arity]).code,
            (a.code.len() + 2) as int,
        ),
{
    let more = seq![OP_PUSH, 3u8] + placeholder() + seq![arity];
    let b = emit(a, more);
    lemma_tidy_code(a);
    assert(more.len() == 7 && more[0] == OP_PUSH && more[1] == 3);
    lemma_appended(a, b, more);
    lemma_append_one(a.code, more);
    let n = a.code.len() as int;
    assert(is_boundary(b.code, n));
    assert(b.code[n] == more[0]);
    assert(b.code[n + 1] == more[1]);
}

/// After a tidy step, one instruction more.
pub proof fn lemma_then(a: Draft, m: Draft, more: Seq<u8>)
    requires
        tidy(a),
        tidy(m),
        grows(a, m),
        one_instruction(more),
        !is_jump(more[0]),
    ensures
        tidy(emit(m, more)),
        grows(a, emit(m, more)),
{
    lemma_emitted(m, more);
    lemma_grows_trans(a, m, emit(m, more));
}

/// What the compiler makes of a tidy draft is tidy, and keeps the code that
/// was there.
pub open spec fn stays_tidy(d: Draft, outcome: Outcome) -> bool {
    outcome matches Ok(m) ==> tidy(m) && grows(d, m)
}

pub proof fn lemma_read_name(d: Draft, name: Seq<char>)
    requires
        tidy(d),
    ensures
        stays_tidy(d, read_name(d, name)),
{
    match scopes_get(d.scopes, name) {
        Some(variable) => {
            lemma_emitted(d, seq![OP_PUSH, OP_GET, variable.key]);
        },
        None => {
            if read_name(d, name) is Ok {
                lemma_hashed(d, seq![OP_PUSH, OP_GET_GLOBAL], name);
            }
        },
    }
}

pub proof fn lemma_write_name(d: Draft, name: Seq<char>)
    requires
        tidy(d),
    ensures
        stays_tidy(d, write_name(d, name)),
{
    match scopes_get(d.scopes, name) {
        Some(variable) => {
            if !variable.is_constant {
                lemma_emitted(d, seq![OP_SET, variable.key]);
            }
        },
        None => {
            if write_name(d, name) is Ok {
                lemma_hashed(d, seq![OP_SET_GLOBAL], name);
            }
        },
    }
}

pub proof fn lemma_string_constant(d: Draft, text: Seq<char>)
    requires
        tidy(d),
    ensures
        stays_tidy(d, string_constant(d, text)),
{
    let interned = spec_intern(
        d.heap,
        interned_content(text),
        (encode_utf8(text).len() + 2) as nat,
    );
    match interned.1 {
        Ok(ptr) => {
            let held = Draft { heap: interned.0, ..d };
            lemma_tidy_same(d, held);
            let more = seq![OP_PUSH, 4u8] + spec_word_bytes(ptr);
            assert(more.len() == 10 && more[0] == OP_PUSH && more[1] == 4);
            lemma_then(d, held, more);
        },
        Err(_) => {},
    }
}

pub proof fn lemma_number(d: Draft, bits: u32)
    requires
        tidy(d),
    ensures
        tidy(number(d, bits)),
        grows(d, number(d, bits)),
{
    let more = seq![OP_PUSH, 1u8] + spec_le_bytes(bits);
    assert(more.len() == 6 && more[0] == OP_PUSH && more[1] == 1);
    lemma_emitted(d, more);
}

pub proof fn lemma_count(a: Draft, m: Draft, n: nat, op: u8)
    requires
        tidy(a),
        tidy(m),
        grows(a, m),
        op == OP_ALLOCATE || op == OP_ALLOCATE_ARRAY,
    ensures
        count(m, n) matches Ok(c) ==> tidy(emit(c, seq![op])) && grows(a, emit(c, seq![op])),
{
    if count(m, n) is Ok {
        let c = count(m, n)->Ok_0;
        lemma_number(m, index_pattern(n));
        lemma_grows_trans(a, m, c);
        lemma_then(a, c, seq![op]);
    }
}

pub proof fn lemma_expression(d: Draft, expr: Expression)
    requires
        tidy(d),
    ensures
        stays_tidy(d, expression(d, expr)),
    decreases expr, 0nat,
{
    match expr {
        Expression::Nil => {
            lemma_emitted(d, seq![OP_PUSH, 7u8]);
        },
        Expression::Bool(value) => {
            lemma_emitted(
                d,
                seq![
                    OP_PUSH,
                    2u8,
                    if value {
                        1u8
                    } else {
                        0u8
                    },
                ],
            );
        },
        Expression::Number(bits) => {
            lemma_number(d, bits);
        },
        Expression::String(text) => {
            lemma_string_constant(d, text@);
        },
        Expression::Identifier(name) => {
            lemma_read_name(d, name@);
        },
        Expression::Call(call) => {
            lemma_call_expression(d, *call);
        },
        Expression::Assigment(assignment) => {
            lemma_assignment_expression(d, *assignment);
        },
        Expression::Binary(binary) => {
            lemma_binary_expression(d, *binary);
        },
        Expression::Unary(unary) => {
            lemma_unary_expression(d, *unary);
        },
        Expression::Group(group) => {
            lemma_expression(d, group.expr);
        },
        Expression::Member(member) => {
            lemma_member_expression(d, *member);
        },
        Expression::Object(object) => {
            lemma_object_expression(d, *object);
        },
        Expression::Array(array) => {
            lemma_array_expression(d, *array);
        },
    }
}

pub proof fn lemma_expressions(d: Draft, exprs: Vec<Expression>, n: nat)
    requires
        tidy(d),
    ensures
        stays_tidy(d, expressions(d, exprs, n)),
    decreases exprs, n,
{
    if n == 0 || n > exprs.len() {
        lemma_tidy_same(d, d);
    } else {
        lemma_expressions(d, exprs, (n - 1) as nat);
        match expressions(d, exprs, (n - 1) as nat) {
            Err(_) => {},
            Ok(m) => {
                lemma_expression(m, exprs[n - 1]);
                if expression(m, exprs[n - 1]) is Ok {
                    lemma_grows_trans(d, m, expression(m, exprs[n - 1])->Ok_0);
                }
            },
        }
    }
}

pub proof fn lemma_call_expression(d: Draft, call: CallExpression)
    requires
        tidy(d),
    ensures
        stays_tidy(d, call_expression(d, call)),
    decreases call, 2nat,
{
    lemma_expressions(d, call.args, call.args.len() as nat);
    match expressions(d, call.args, call.args.len() as nat) {
        Err(_) => {},
        Ok(m) => {
            lemma_expression(m, call.callee);
            match expression(m, call.callee) {
                Err(_) => {},
                Ok(m2) => {
                    lemma_grows_trans(d, m, m2);
                    lemma_then(d, m2, seq![OP_CALL]);
                },
            }
        },
    }
}

pub proof fn lemma_assignment_expression(d: Draft, assignment: AssignmentExpression)
    requires
        tidy(d),
    ensures
        stays_tidy(d, assignment_expression(d, assignment)),
    decreases assignment, 2nat,
{
    lemma_expression(d, assignment.value);
    match expression(d, assignment.value) {
        Err(_) => {},
        Ok(m) => match assignment.assignee {
            Expression::Identifier(name) => {
                lemma_write_name(m, name@);
                if write_name(m, name@) is Ok {
                    lemma_grows_trans(d, m, write_name(m, name@)->Ok_0);
                }
            },
            Expression::Member(member) => {
                lemma_expression(m, member.callee);
                match expression(m, member.callee) {
                    Err(_) => {},
                    Ok(m2) => {
                        lemma_grows_trans(d, m, m2);
                        lemma_expression(m2, member.property);
                        match expression(m2, member.property) {
                            Err(_) => {},
                            Ok(m3) => {
                                lemma_grows_trans(d, m2, m3);
                                lemma_then(d, m3, seq![OP_SET_PROPERTY]);
                            },
                        }
                    },
                }
            },
            _ => {},
        },
    }
}

pub proof fn lemma_binary_expression(d: Draft, binary: BinaryExpression)
    requires
        tidy(d),
    ensures
        stays_tidy(d, binary_expression(d, binary)),
    decreases binary, 2nat,
{
    lemma_expression(d, binary.left);
    match expression(d, binary.left) {
        Err(_) => {},
        Ok(m) => {
            lemma_expression(m, binary.right);
            match expression(m, binary.right) {
                Err(_) => {},
                Ok(m2) => {
                    lemma_grows_trans(d, m, m2);
                    match operator_code(binary.operator) {
                        Some(code) => {
                            lemma_then(d, m2, seq![code]);
                        },
                        None => {},
                    }
                },
            }
        },
    }
}

pub proof fn lemma_unary_expression(d: Draft, unary: UnaryExpression)
    requires
        tidy(d),
    ensures
        stays_tidy(d, unary_expression(d, unary)),
    decreases unary, 2nat,
{
    lemma_expression(d, unary.expr);
    match expression(d, unary.expr) {
        Err(_) => {},
        Ok(m) => match unary_code(unary.operator) {
            Some(code) => {
                lemma_then(d, m, seq![code]);
            },
            None => {},
        },
    }
}

pub proof fn lemma_member_expression(d: Draft, member: MemberExpression)
    requires
        tidy(d),
    ensures
        stays_tidy(d, member_expression(d, member)),
    decreases member, 2nat,
{
    lemma_expression(d, member.property);
    match expression(d, member.property) {
        Err(_) => {},
        Ok(m) => {
            lemma_expression(m, member.callee);
            match expression(m, member.callee) {
                Err(_) => {},
                Ok(m2) => {
                    lemma_grows_trans(d, m, m2);
                    lemma_then(d, m2, seq![OP_ACCESS]);
                },
            }
        },
    }
}

pub proof fn lemma_object_expression(d: Draft, object: ObjectExpression)
    requires
        tidy(d),
    ensures
        stays_tidy(d, object_expression(d, object)),
    decreases object, 2nat,
{
    lemma_expressions(d, object.properties, object.properties.len() as nat);
    match expressions(d, object.properties, object.properties.len() as nat) {
        Err(_) => {},
        Ok(m) => {
            lemma_expressions(m, object.values, object.values.len() as nat);
            match expressions(m, object.values, object.values.len() as nat) {
                Err(_) => {},
                Ok(m2) => {
                    lemma_grows_trans(d, m, m2);
                    lemma_count(d, m2, object.properties.len() as nat, OP_ALLOCATE);
                },
            }
        },
    }
}

pub proof fn lemma_array_expression(d: Draft, array: ArrayExpression)
    requires
        tidy(d),
    ensures
        stays_tidy(d, array_expression(d, array)),
    decreases array, 2nat,
{
    lemma_expressions(d, array.values, array.values.len() as nat);
    match expressions(d, array.values, array.values.len() as nat) {
        Err(_) => {},
        Ok(m) => {
            lemma_count(d, m, array.values.len() as nat, OP_ALLOCATE_ARRAY);
        },
    }
}

pub proof fn lemma_leave(a: Draft, m: Draft)
    requires
        tidy(a),
        tidy(m),
        grows(a, m),
    ensures
        leave(m) matches Ok(left) ==> tidy(left) && grows(a, left),
{
    if leave(m) is Ok {
        lemma_tidy_same(m, leave(m)->Ok_0);
        lemma_grows_trans(a, m, leave(m)->Ok_0);
    }
}

pub proof fn lemma_declaration(d: Draft, decl: DeclarationStatement)
    requires
        tidy(d),
    ensures
        stays_tidy(d, declaration(d, decl)),
{
    if d.context is Global {
        match decl.value {
            Some(value) => {
                lemma_expression(d, value);
                match expression(d, value) {
                    Err(_) => {},
                    Ok(m) => {
                        if hash(emit(m, seq![OP_DECLARE_GLOBAL]), decl.variable@) is Ok {
                            lemma_hashed(m, seq![OP_DECLARE_GLOBAL], decl.variable@);
                            lemma_grows_trans(
                                d,
                                m,
                                hash(emit(m, seq![OP_DECLARE_GLOBAL]), decl.variable@)->Ok_0,
                            );
                        }
                    },
                }
            },
            None => {
                let m = emit(d, seq![OP_PUSH, 7u8]);
                lemma_emitted(d, seq![OP_PUSH, 7u8]);
                if hash(emit(m, seq![OP_DECLARE_GLOBAL]), decl.variable@) is Ok {
                    lemma_hashed(m, seq![OP_DECLARE_GLOBAL], decl.variable@);
                    lemma_grows_trans(
                        d,
                        m,
                        hash(emit(m, seq![OP_DECLARE_GLOBAL]), decl.variable@)->Ok_0,
                    );
                }
            },
        }
    } else {
        match decl.value {
            Some(value) => {
                lemma_expression(d, value);
                match expression(d, value) {
                    Err(_) => {},
                    Ok(m) => {
                        let bound = Draft {
                            scopes: scopes_bind(m.scopes, decl.variable@, decl.kind is Const),
                            ..m
                        };
                        lemma_tidy_same(m, bound);
                        lemma_grows_trans(d, m, bound);
                    },
                }
            },
            None => {
                let bound = Draft { scopes: scopes_bind(d.scopes, decl.variable@, false), ..d };
                lemma_tidy_same(d, bound);
                lemma_then(d, bound, seq![OP_DECLARE]);
            },
        }
    }
}

pub proof fn lemma_declarations(d: Draft, decls: Vec<DeclarationStatement>, n: nat)
    requires
        tidy(d),
    ensures
        stays_tidy(d, declarations(d, decls, n)),
    decreases n,
{
    if n == 0 || n > decls.len() {
        lemma_tidy_same(d, d);
    } else {
        lemma_declarations(d, decls, (n - 1) as nat);
        match declarations(d, decls, (n - 1) as nat) {
            Err(_) => {},
            Ok(m) => {
                lemma_declaration(m, decls[n - 1]);
                if declaration(m, decls[n - 1]) is Ok {
                    lemma_grows_trans(d, m, declaration(m, decls[n - 1])->Ok_0);
                }
            },
        }
    }
}

pub proof fn lemma_statement(d: Draft, stmt: Statement)
    requires
        tidy(d),
    ensures
        stays_tidy(d, statement(d, stmt)),
    decreases stmt, 0nat,
{
    match stmt {
        Statement::Print(print) => {
            lemma_expression(d, print.expr);
            if expression(d, print.expr) is Ok {
                lemma_then(d, expression(d, print.expr)->Ok_0, seq![OP_PRINT]);
            }
        },
        Statement::FunctionBody(block) => {
            lemma_function_body(d, *block);
        },
        Statement::Break => {
            if break_jump(d) is Ok {
                lemma_break(d);
            }
        },
        Statement::Block(block) => {
            lemma_block_statement(d, *block);
        },
        Statement::Expression(stmt) => {
            lemma_expression(d, stmt.expr);
            if expression(d, stmt.expr) is Ok {
                lemma_then(d, expression(d, stmt.expr)->Ok_0, seq![OP_POP]);
            }
        },
        Statement::Return(ret) => {
            match ret.value {
                Some(value) => {
                    lemma_expression(d, value);
                    match expression(d, value) {
                        Err(_) => {},
                        Ok(m) => {
                            assert(seq![OP_RETURN] + seq![OP_END_FUNCTION] =~= seq![
                                OP_RETURN,
                                OP_END_FUNCTION,
                            ]);
                            lemma_emitted_two(m, seq![OP_RETURN], seq![OP_END_FUNCTION]);
                            lemma_grows_trans(d, m, emit(m, seq![OP_RETURN, OP_END_FUNCTION]));
                        },
                    }
                },
                None => {
                    lemma_emitted(d, seq![OP_END_FUNCTION]);
                },
            }
        },
        Statement::If(stmt) => {
            lemma_if_statement(d, *stmt);
        },
        Statement::Declaration(decl) => {
            lemma_declaration(d, decl);
        },
        Statement::MultiDeclaration(multi) => {
            lemma_declarations(d, multi.declarations, multi.declarations.len() as nat);
        },
        Statement::Loop(stmt) => {
            lemma_loop_statement(d, *stmt);
        },
    }
}

pub proof fn lemma_statements(d: Draft, stmts: Vec<Statement>, n: nat)
    requires
        tidy(d),
    ensures
        stays_tidy(d, statements(d, stmts, n)),
    decreases stmts, n,
{
    if n == 0 || n > stmts.len() {
        lemma_tidy_same(d, d);
    } else {
        lemma_statements(d, stmts, (n - 1) as nat);
        match statements(d, stmts, (n - 1) as nat) {
            Err(_) => {},
            Ok(m) => {
                lemma_statement(m, stmts[n - 1]);
                if statement(m, stmts[n - 1]) is Ok {
                    lemma_grows_trans(d, m, statement(m, stmts[n - 1])->Ok_0);
                }
            },
        }
    }
}

pub proof fn lemma_function_body(d: Draft, block: BlockStatement)
    requires
        tidy(d),
    ensures
        stays_tidy(d, function_body(d, block)),
    decreases block, 2nat,
{
    match d.context {
        Scene::Function(name) => {
            let at = signature_position(d.active_func_args, name, 0);
            if at < d.active_func_args.len() {
                let framed = Draft {
                    scopes: frame_scopes(d.scopes, d.active_func_args[at].1),
                    ..d
                };
                lemma_tidy_same(d, framed);
                lemma_statements(framed, block.statements, block.statements.len() as nat);
                match statements(framed, block.statements, block.statements.len() as nat) {
                    Err(_) => {},
                    Ok(m) => {
                        lemma_grows_trans(d, framed, m);
                        lemma_leave(d, m);
                    },
                }
            }
        },
        _ => {},
    }
}

pub proof fn lemma_block_statement(d: Draft, block: BlockStatement)
    requires
        tidy(d),
    ensures
        stays_tidy(d, block_statement(d, block)),
    decreases block, 2nat,
{
    let inner = Draft {
        context: Scene::Block,
        scopes: d.scopes.push(Scope { frame_beginning: false, variables: Seq::empty() }),
        ..d
    };
    lemma_tidy_same(d, inner);
    lemma_statements(inner, block.statements, block.statements.len() as nat);
    match statements(inner, block.statements, block.statements.len() as nat) {
        Err(_) => {},
        Ok(m) => {
            lemma_grows_trans(d, inner, m);
            let popped = emit(m, pops(m.scopes.last().variables.len()));
            lemma_popped(m, m.scopes.last().variables.len());
            lemma_grows_trans(d, m, popped);
            lemma_leave(d, popped);
            match leave(popped) {
                Err(_) => {},
                Ok(left) => {
                    let restored = Draft { context: d.context, ..left };
                    lemma_tidy_same(left, restored);
                    lemma_grows_trans(d, left, restored);
                },
            }
        },
    }
}

pub proof fn lemma_if_statement(d: Draft, stmt: IfStatement)
    requires
        tidy(d),
    ensures
        stays_tidy(d, if_statement(d, stmt)),
    decreases stmt, 2nat,
{
    lemma_expression(d, stmt.condition);
    match expression(d, stmt.condition) {
        Err(_) => {},
        Ok(m) => {
            let place = (m.code.len() + 1) as int;
            let tested = emit(m, seq![OP_JUMP_IF_FALSE] + placeholder());
            lemma_jump_emitted(m, OP_JUMP_IF_FALSE);
            lemma_grows_trans(d, m, tested);
            lemma_statement(tested, stmt.body);
            match statement(tested, stmt.body) {
                Err(_) => {},
                Ok(m2) => {
                    lemma_grows_trans(d, tested, m2);
                    lemma_patchable_grows(tested, m2, place);
                    lemma_if_end(d, m2, stmt.alternative, place);
                },
            }
        },
    }
}

pub proof fn lemma_if_end(a: Draft, d: Draft, alternative: Option<Statement>, place: int)
    requires
        tidy(a),
        tidy(d),
        grows(a, d),
        patchable(d.code, place),
    ensures
        if_end(d, alternative, place) matches Ok(m) ==> tidy(m) && grows(a, m),
    decreases alternative, 1nat,
{
    match alternative {
        Some(alternative) => {
            let place_else = (d.code.len() + 1) as int;
            let jumped = jump(d);
            lemma_jump_emitted(d, OP_JUMP);
            lemma_grows_trans(a, d, jumped);
            lemma_patchable_grows(d, jumped, place);
            match patch(jumped, place) {
                Err(_) => {},
                Ok(m) => {
                    lemma_patched(jumped, place);
                    lemma_grows_trans(a, jumped, m);
                    lemma_patchable_grows(jumped, m, place_else);
                    lemma_statement(m, alternative);
                    match statement(m, alternative) {
                        Err(_) => {},
                        Ok(m2) => {
                            lemma_grows_trans(a, m, m2);
                            lemma_patchable_grows(m, m2, place_else);
                            if patch(m2, place_else) is Ok {
                                lemma_patched(m2, place_else);
                                lemma_grows_trans(a, m2, patch(m2, place_else)->Ok_0);
                            }
                        },
                    }
                },
            }
        },
        None => {
            if patch(d, place) is Ok {
                lemma_patched(d, place);
                lemma_grows_trans(a, d, patch(d, place)->Ok_0);
            }
        },
    }
}

pub proof fn lemma_loop_statement(d: Draft, stmt: LoopStatement)
    requires
        tidy(d),
    ensures
        stays_tidy(d, loop_statement(d, stmt)),
    decreases stmt, 2nat,
{
    let opened = Draft { break_stmt: d.break_stmt.push(Seq::empty()), ..d };
    lemma_loop_opened(d);
    lemma_tidy_code(d);
    lemma_statement(opened, stmt.body);
    match statement(opened, stmt.body) {
        Err(_) => {},
        Ok(m) => {
            lemma_boundary_grows(opened, m, d.code.len() as int);
            if loop_end(m, d.code.len()) is Ok {
                lemma_loop_closed(m, d.code.len());
                let closed = loop_end(m, d.code.len())->Ok_0;
                lemma_keeps_trans(d, opened, m);
                lemma_keeps_trans(d, m, closed);
            }
        },
    }
}

pub proof fn lemma_function_declaration(d: Draft, function: FunctionDeclarationStatement)
    requires
        tidy(d),
    ensures
        stays_tidy(d, function_declaration(d, function)),
{
    let name = function.name.name@;
    let place = (d.code.len() + 2) as int;
    if function.params.len() <= 255 {
        let entered = Draft { context: Scene::Function(name), ..d };
        lemma_tidy_same(d, entered);
        let arity = function.params.len() as u8;
        let constant = emit(entered, seq![OP_PUSH, 3u8] + placeholder() + seq![arity]);
        lemma_constant_emitted(entered, arity);
        lemma_grows_trans(d, entered, constant);
        let declared = Draft {
            active_func_args: declare_signature(
                constant.active_func_args,
                name,
                parameter_names(function.params@),
            ),
            ..constant
        };
        lemma_tidy_same(constant, declared);
        lemma_grows_trans(d, constant, declared);
        match hash(emit(declared, seq![OP_DECLARE_GLOBAL]), name) {
            Err(_) => {},
            Ok(m) => {
                lemma_hashed(declared, seq![OP_DECLARE_GLOBAL], name);
                lemma_grows_trans(d, declared, m);
                lemma_patchable_grows(declared, m, place);
                let place_over = (m.code.len() + 1) as int;
                let jumped = jump(m);
                lemma_jump_emitted(m, OP_JUMP);
                lemma_grows_trans(d, m, jumped);
                lemma_patchable_grows(m, jumped, place);
                match patch(jumped, place) {
                    Err(_) => {},
                    Ok(m2) => {
                        lemma_patched(jumped, place);
                        lemma_grows_trans(d, jumped, m2);
                        lemma_patchable_grows(jumped, m2, place_over);
                        lemma_statement(m2, function.body);
                        match statement(m2, function.body) {
                            Err(_) => {},
                            Ok(m3) => {
                                lemma_grows_trans(d, m2, m3);
                                lemma_patchable_grows(m2, m3, place_over);
                                let ended = emit(m3, seq![OP_END_FUNCTION]);
                                lemma_emitted(m3, seq![OP_END_FUNCTION]);
                                lemma_grows_trans(d, m3, ended);
                                lemma_patchable_grows(m3, ended, place_over);
                                match patch(ended, place_over) {
                                    Err(_) => {},
                                    Ok(m4) => {
                                        lemma_patched(ended, place_over);
                                        lemma_grows_trans(d, ended, m4);
                                        let restored = Draft { context: d.context, ..m4 };
                                        lemma_tidy_same(m4, restored);
                                        lemma_grows_trans(d, m4, restored);
                                    },
                                }
                            },
                        }
                    },
                }
            },
        }
    }
}

pub proof fn lemma_program(d: Draft, stmts: Seq<GlobalStatement>, n: int)
    requires
        tidy(d),
    ensures
        stays_tidy(d, program(d, stmts, n)),
    decreases n,
{
    if n <= 0 {
        lemma_tidy_same(d, d);
    } else {
        lemma_program(d, stmts, n - 1);
        match program(d, stmts, n - 1) {
            Err(_) => {},
            Ok(m) => {
                match stmts[n - 1] {
                    GlobalStatement::Statement(stmt) => {
                        lemma_statement(m, stmt);
                    },
                    GlobalStatement::FunctionDeclaration(function) => {
                        lemma_function_declaration(m, function);
                    },
                }
                if global_statement(m, stmts[n - 1]) is Ok {
                    lemma_grows_trans(d, m, global_statement(m, stmts[n - 1])->Ok_0);
                }
            },
        }
    }
}

/// A draft without code and without open loops is tidy.
pub proof fn lemma_blank_is_tidy(d: Draft)
    requires
        d.code.len() == 0,
        d.break_stmt.len() == 0,
    ensures
        tidy(d),
{
    reveal(tidy);
    assert(lands(d.code, 0, 0));
}

/// Jump closedness: in the code that the compiler makes of a program, from
/// a draft without code, the target of every jump is where an instruction
/// starts or where the code ends, and the code is made of whole
/// instructions.
pub proof fn lemma_jumps_closed(d: Draft, stmts: Seq<GlobalStatement>)
    requires
        d.code.len() == 0,
        d.break_stmt.len() == 0,
        program(d, stmts, stmts.len() as int) is Ok,
    ensures
        well_laid(program(d, stmts, stmts.len() as int)->Ok_0.code),
        jumps_closed(program(d, stmts, stmts.len() as int)->Ok_0.code),
{
    lemma_blank_is_tidy(d);
    lemma_program(d, stmts, stmts.len() as int);
    lemma_tidy_code(program(d, stmts, stmts.len() as int)->Ok_0);
}

} // verus!
