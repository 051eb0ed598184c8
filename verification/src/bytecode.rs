use vstd::prelude::*;

verus! {

pub type Bytecode = u8;

pub const START_OP_CODE: Bytecode = 0;

pub const OP_PRINT: Bytecode = 1;

pub const OP_ADD: Bytecode = 2;

pub const OP_SUB: Bytecode = 3;

pub const OP_DIV: Bytecode = 4;

pub const OP_MUL: Bytecode = 5;

pub const OP_POW: Bytecode = 6;

pub const OP_POP: Bytecode = 7;

pub const OP_PUSH: Bytecode = 8;

pub const OP_EQ: Bytecode = 9;

pub const OP_NE: Bytecode = 10;

pub const OP_AND: Bytecode = 11;

pub const OP_OR: Bytecode = 12;

pub const OP_GE: Bytecode = 13;

pub const OP_GR: Bytecode = 14;

pub const OP_LE: Bytecode = 15;

pub const OP_LS: Bytecode = 16;

pub const OP_UNARY_SUB: Bytecode = 17;

pub const OP_UNARY_NOT: Bytecode = 18;

pub const OP_DECLARE: Bytecode = 19;

pub const OP_DECLARE_GLOBAL: Bytecode = 20;

pub const OP_GET: Bytecode = 21;

pub const OP_GET_GLOBAL: Bytecode = 22;

pub const OP_SET: Bytecode = 23;

pub const OP_SET_GLOBAL: Bytecode = 24;

pub const OP_JUMP_IF_FALSE: Bytecode = 25;

pub const OP_JUMP: Bytecode = 26;

pub const OP_END_FUNCTION: Bytecode = 27;

pub const OP_CALL: Bytecode = 28;

pub const OP_RETURN: Bytecode = 29;

pub const OP_ALLOCATE: Bytecode = 30;

pub const OP_ALLOCATE_ARRAY: Bytecode = 31;

pub const OP_ACCESS: Bytecode = 32;

pub const OP_SET_PROPERTY: Bytecode = 33;

/// The two bytes of a global's slot, least significant first.
pub open spec fn spec_slot_bytes(slot: u16) -> Seq<u8> {
    seq![(slot % 256) as u8, (slot / 256) as u8]
}

/// The slot whose two bytes stand at `at`.
pub open spec fn spec_slot_at(code: Seq<u8>, at: int) -> u16 {
    (code[at] as int + code[at + 1] as int * 256) as u16
}

pub fn slot_bytes(slot: u16) -> (bytes: [u8; 2])
    ensures
        bytes@ == spec_slot_bytes(slot),
{
    let bytes = [(slot % 256) as u8, (slot / 256) as u8];
    assert(bytes@ =~= spec_slot_bytes(slot));
    bytes
}

pub fn slot_from_bytes(low: u8, high: u8) -> (slot: u16)
    ensures
        slot == spec_slot_at(seq![low, high], 0),
{
    low as u16 + high as u16 * 256
}

} // verus!
