//! Bits of a micro-instruction word: control signals, the ALU operation field
//! (bits 25..28) and the jump condition field (bits 22..24).
use vstd::prelude::*;

verus! {

pub const PC_TO_AR: u32 = 1 << 0;
pub const PC_INCR: u32 = 1 << 1;
pub const DR_TO_CR: u32 = 1 << 2;
pub const OPERAND_TO_AR: u32 = 1 << 3;
pub const DR_TO_AR: u32 = 1 << 4;
pub const MEM_TO_DR: u32 = 1 << 5;
pub const DR_TO_MEM: u32 = 1 << 6;
pub const DR_TO_AC: u32 = 1 << 7;
pub const ALU_TO_AC: u32 = 1 << 8;
pub const AC_TO_DR: u32 = 1 << 9;
pub const PC_TO_DR: u32 = 1 << 10;
pub const SP_TO_DR: u32 = 1 << 11;
pub const SP_TO_AR: u32 = 1 << 12;
pub const SP_INCR: u32 = 1 << 13;
pub const SP_DECR: u32 = 1 << 14;
pub const DR_TO_PC: u32 = 1 << 15;
pub const ALU_TO_PC: u32 = 1 << 16;
pub const DR_TO_DATA_BUS: u32 = 1 << 17;
pub const IMM_TO_DATA_BUS: u32 = 1 << 18;
pub const ZERO_TO_DATA_BUS: u32 = 1 << 19;
pub const UPDATE_FLAGS: u32 = 1 << 20;
pub const DONE: u32 = 1 << 21;
pub const HALT: u32 = 1 << 29;

pub const ALU_PASS: u32 = 0 << 25;
pub const ALU_ADD: u32 = 1 << 25;
pub const ALU_SUB: u32 = 2 << 25;
pub const ALU_MUL: u32 = 3 << 25;
pub const ALU_DIV: u32 = 4 << 25;
pub const ALU_MOD: u32 = 5 << 25;
pub const ALU_AND: u32 = 6 << 25;
pub const ALU_OR: u32 = 7 << 25;
pub const ALU_XOR: u32 = 8 << 25;
pub const ALU_NEG: u32 = 9 << 25;
pub const ALU_NOT: u32 = 10 << 25;

pub const COND_ALWAYS: u32 = 0 << 22;
pub const COND_Z: u32 = 1 << 22;
pub const COND_NZ: u32 = 2 << 22;
pub const COND_N: u32 = 3 << 22;
pub const COND_NN: u32 = 4 << 22;

/// Places an ALU operation number in its field of a micro-instruction.
pub fn alu_op(op: u32) -> (r: u32)
    ensures
        r == op << 25u32,
{
    op << 25u32
}

/// Places a jump condition number in its field of a micro-instruction.
pub fn cond(c: u32) -> (r: u32)
    ensures
        r == c << 22u32,
{
    c << 22u32
}

/// The ALU operation field of a micro-instruction.
pub open spec fn alu_field(micro: u32) -> u32 {
    (micro >> 25u32) & 0xFu32
}

/// The condition field of a micro-instruction.
pub open spec fn cond_field(micro: u32) -> u32 {
    (micro >> 22u32) & 0x7u32
}

/// Whether a micro-instruction carries a given signal bit.
pub open spec fn has(micro: u32, signal: u32) -> bool {
    micro & signal != 0
}

} // verus!
