//! The microprogram ROM: for each opcode and addressing mode, six slots of
//! micro-instructions. Every row starts with the two fetch steps.
use vstd::prelude::*;
use crate::isa::{OP_LD, OP_ST, OP_ADD, OP_SUB, OP_MUL, OP_DIV, OP_MOD, OP_CMP, OP_NEG, OP_NOT, OP_AND, OP_OR, OP_XOR, OP_JMP, OP_JZS, OP_JZC, OP_JNS, OP_JNC, OP_CALL, OP_RET, OP_HALT, MODE_DIRECT, MODE_IMM, MODE_INDIRECT};
use crate::signals::{PC_TO_AR, PC_INCR, DR_TO_CR, OPERAND_TO_AR, DR_TO_AR, MEM_TO_DR, DR_TO_MEM, ALU_TO_AC, AC_TO_DR, PC_TO_DR, SP_TO_AR, SP_INCR, SP_DECR, DR_TO_PC, ALU_TO_PC, DR_TO_DATA_BUS, IMM_TO_DATA_BUS, UPDATE_FLAGS, DONE, HALT, ALU_PASS, ALU_ADD, ALU_SUB, ALU_MUL, ALU_DIV, ALU_MOD, ALU_AND, ALU_OR, ALU_XOR, ALU_NEG, ALU_NOT, COND_ALWAYS, COND_Z, COND_NZ, COND_N, COND_NN};

verus! {

pub const NUM_OPCODES: usize = 22;
pub const NUM_MODES: usize = 4;
pub const SLOTS_PER_INSTR: usize = 6;
pub const MICROCODE_SIZE: usize = 528;

/// The ROM index of a slot of an opcode's row for a mode.
pub open spec fn micro_index(opcode: int, mode: int, slot: int) -> int {
    (opcode * 4 + mode) * 6 + slot
}

/// The ROM index of a slot of an opcode's row for a mode.
pub fn micro_addr(opcode: usize, mode: usize, slot: usize) -> (i: usize)
    requires
        micro_index(opcode as int, mode as int, slot as int) <= usize::MAX,
    ensures
        i == micro_index(opcode as int, mode as int, slot as int),
{
    (opcode * NUM_MODES + mode) * SLOTS_PER_INSTR + slot
}

/// The micro-instruction of an opcode or mode that does nothing: stop.
pub open spec fn stop_row() -> Seq<u32> {
    seq![HALT | DONE]
}

/// The ALU operation that an arithmetic or logic opcode uses.
pub open spec fn alu_of(opcode: u32) -> u32 {
    if opcode == OP_ADD { ALU_ADD }
    else if opcode == OP_SUB { ALU_SUB }
    else if opcode == OP_MUL { ALU_MUL }
    else if opcode == OP_DIV { ALU_DIV }
    else if opcode == OP_MOD { ALU_MOD }
    else if opcode == OP_AND { ALU_AND }
    else if opcode == OP_OR { ALU_OR }
    else { ALU_XOR }
}

/// The jump condition of a jump opcode.
pub open spec fn cond_of(opcode: u32) -> u32 {
    if opcode == OP_JMP { COND_ALWAYS }
    else if opcode == OP_JZS { COND_Z }
    else if opcode == OP_JZC { COND_NZ }
    else if opcode == OP_JNS { COND_N }
    else { COND_NN }
}

/// An opcode that takes its operand through the ALU into the accumulator.
pub open spec fn is_alu_opcode(opcode: u32) -> bool {
    opcode == OP_ADD || opcode == OP_SUB || opcode == OP_MUL || opcode == OP_DIV || opcode == OP_MOD
        || opcode == OP_AND || opcode == OP_OR || opcode == OP_XOR
}

/// A jump opcode.
pub open spec fn is_jump_opcode(opcode: u32) -> bool {
    opcode == OP_JMP || opcode == OP_JZS || opcode == OP_JZC || opcode == OP_JNS || opcode == OP_JNC
}

/// The micro-instructions of an opcode's row for a mode after the two fetch
/// steps; the slots past them hold zero.
pub open spec fn execute_row(opcode: u32, mode: u32) -> Seq<u32> {
    if opcode == OP_LD || is_alu_opcode(opcode) {
        let alu = if opcode == OP_LD { ALU_PASS } else { alu_of(opcode) };
        if mode == MODE_DIRECT {
            seq![OPERAND_TO_AR | MEM_TO_DR, DR_TO_DATA_BUS | alu | ALU_TO_AC | UPDATE_FLAGS | DONE]
        } else if mode == MODE_IMM {
            seq![IMM_TO_DATA_BUS | alu | ALU_TO_AC | UPDATE_FLAGS | DONE]
        } else if mode == MODE_INDIRECT {
            seq![OPERAND_TO_AR | MEM_TO_DR, DR_TO_AR | MEM_TO_DR, DR_TO_DATA_BUS | alu | ALU_TO_AC | UPDATE_FLAGS | DONE]
        } else {
            stop_row()
        }
    } else if opcode == OP_ST {
        if mode == MODE_DIRECT {
            seq![AC_TO_DR, OPERAND_TO_AR | DR_TO_MEM | DONE]
        } else if mode == MODE_INDIRECT {
            seq![OPERAND_TO_AR | MEM_TO_DR, DR_TO_AR, AC_TO_DR, DR_TO_MEM | DONE]
        } else {
            stop_row()
        }
    } else if opcode == OP_CMP {
        if mode == MODE_DIRECT {
            seq![OPERAND_TO_AR | MEM_TO_DR, DR_TO_DATA_BUS | ALU_SUB | UPDATE_FLAGS | DONE]
        } else if mode == MODE_IMM {
            seq![IMM_TO_DATA_BUS | ALU_SUB | UPDATE_FLAGS | DONE]
        } else if mode == MODE_INDIRECT {
            seq![OPERAND_TO_AR | MEM_TO_DR, DR_TO_AR | MEM_TO_DR, DR_TO_DATA_BUS | ALU_SUB | UPDATE_FLAGS | DONE]
        } else {
            stop_row()
        }
    } else if opcode == OP_NEG {
        seq![ALU_NEG | ALU_TO_AC | UPDATE_FLAGS | DONE]
    } else if opcode == OP_NOT {
        seq![ALU_NOT | ALU_TO_AC | UPDATE_FLAGS | DONE]
    } else if is_jump_opcode(opcode) {
        let c = cond_of(opcode);
        if mode == MODE_DIRECT || mode == MODE_IMM {
            seq![ALU_PASS | IMM_TO_DATA_BUS | ALU_TO_PC | c | DONE]
        } else if mode == MODE_INDIRECT {
            seq![OPERAND_TO_AR | MEM_TO_DR, DR_TO_DATA_BUS | ALU_PASS | ALU_TO_PC | c | DONE]
        } else {
            stop_row()
        }
    } else if opcode == OP_CALL {
        if mode == MODE_DIRECT || mode == MODE_IMM {
            seq![PC_TO_DR | SP_INCR | SP_TO_AR, DR_TO_MEM, ALU_PASS | IMM_TO_DATA_BUS | ALU_TO_PC | DONE]
        } else {
            stop_row()
        }
    } else if opcode == OP_RET {
        seq![SP_DECR, SP_TO_AR | MEM_TO_DR, DR_TO_PC | DONE]
    } else if opcode == OP_HALT {
        seq![HALT | DONE]
    } else {
        stop_row()
    }
}

/// A whole row: the fetch steps, the execute steps, zeros after them.
pub open spec fn row_entry(opcode: u32, mode: u32, slot: int) -> u32 {
    if slot == 0 {
        PC_TO_AR | MEM_TO_DR
    } else if slot == 1 {
        DR_TO_CR | PC_INCR
    } else if slot - 2 < execute_row(opcode, mode).len() {
        execute_row(opcode, mode)[slot - 2]
    } else {
        0
    }
}

/// The ROM word at an index.
pub open spec fn rom_word(i: int) -> u32 {
    row_entry((i / 24) as u32, ((i % 24) / 6) as u32, i % 6)
}

/// The micro-instructions of an opcode's row for a mode after the fetch steps.
pub fn execute_steps(opcode: u32, mode: u32) -> (v: Vec<u32>)
    ensures
        v@ == execute_row(opcode, mode),
{
    if opcode == OP_LD || opcode == OP_ADD || opcode == OP_SUB || opcode == OP_MUL || opcode == OP_DIV
        || opcode == OP_MOD || opcode == OP_AND || opcode == OP_OR || opcode == OP_XOR {
        let alu = if opcode == OP_LD {
            ALU_PASS
        } else if opcode == OP_ADD {
            ALU_ADD
        } else if opcode == OP_SUB {
            ALU_SUB
        } else if opcode == OP_MUL {
            ALU_MUL
        } else if opcode == OP_DIV {
            ALU_DIV
        } else if opcode == OP_MOD {
            ALU_MOD
        } else if opcode == OP_AND {
            ALU_AND
        } else if opcode == OP_OR {
            ALU_OR
        } else {
            ALU_XOR
        };
        if mode == MODE_DIRECT {
            vec![OPERAND_TO_AR | MEM_TO_DR, DR_TO_DATA_BUS | alu | ALU_TO_AC | UPDATE_FLAGS | DONE]
        } else if mode == MODE_IMM {
            vec![IMM_TO_DATA_BUS | alu | ALU_TO_AC | UPDATE_FLAGS | DONE]
        } else if mode == MODE_INDIRECT {
            vec![OPERAND_TO_AR | MEM_TO_DR, DR_TO_AR | MEM_TO_DR, DR_TO_DATA_BUS | alu | ALU_TO_AC | UPDATE_FLAGS | DONE]
        } else {
            vec![HALT | DONE]
        }
    } else if opcode == OP_ST {
        if mode == MODE_DIRECT {
            vec![AC_TO_DR, OPERAND_TO_AR | DR_TO_MEM | DONE]
        } else if mode == MODE_INDIRECT {
            vec![OPERAND_TO_AR | MEM_TO_DR, DR_TO_AR, AC_TO_DR, DR_TO_MEM | DONE]
        } else {
            vec![HALT | DONE]
        }
    } else if opcode == OP_CMP {
        if mode == MODE_DIRECT {
            vec![OPERAND_TO_AR | MEM_TO_DR, DR_TO_DATA_BUS | ALU_SUB | UPDATE_FLAGS | DONE]
        } else if mode == MODE_IMM {
            vec![IMM_TO_DATA_BUS | ALU_SUB | UPDATE_FLAGS | DONE]
        } else if mode == MODE_INDIRECT {
            vec![OPERAND_TO_AR | MEM_TO_DR, DR_TO_AR | MEM_TO_DR, DR_TO_DATA_BUS | ALU_SUB | UPDATE_FLAGS | DONE]
        } else {
            vec![HALT | DONE]
        }
    } else if opcode == OP_NEG {
        vec![ALU_NEG | ALU_TO_AC | UPDATE_FLAGS | DONE]
    } else if opcode == OP_NOT {
        vec![ALU_NOT | ALU_TO_AC | UPDATE_FLAGS | DONE]
    } else if opcode == OP_JMP || opcode == OP_JZS || opcode == OP_JZC || opcode == OP_JNS || opcode == OP_JNC {
        let c = if opcode == OP_JMP {
            COND_ALWAYS
        } else if opcode == OP_JZS {
            COND_Z
        } else if opcode == OP_JZC {
            COND_NZ
        } else if opcode == OP_JNS {
            COND_N
        } else {
            COND_NN
        };
        if mode == MODE_DIRECT || mode == MODE_IMM {
            vec![ALU_PASS | IMM_TO_DATA_BUS | ALU_TO_PC | c | DONE]
        } else if mode == MODE_INDIRECT {
            vec![OPERAND_TO_AR | MEM_TO_DR, DR_TO_DATA_BUS | ALU_PASS | ALU_TO_PC | c | DONE]
        } else {
            vec![HALT | DONE]
        }
    } else if opcode == OP_CALL {
        if mode == MODE_DIRECT || mode == MODE_IMM {
            vec![PC_TO_DR | SP_INCR | SP_TO_AR, DR_TO_MEM, ALU_PASS | IMM_TO_DATA_BUS | ALU_TO_PC | DONE]
        } else {
            vec![HALT | DONE]
        }
    } else if opcode == OP_RET {
        vec![SP_DECR, SP_TO_AR | MEM_TO_DR, DR_TO_PC | DONE]
    } else if opcode == OP_HALT {
        vec![HALT | DONE]
    } else {
        vec![HALT | DONE]
    }
}

/// Builds the ROM: 22 opcodes, four modes each, six slots per row.
pub fn build_microcode() -> (rom: Vec<u32>)
    ensures
        rom@.len() == MICROCODE_SIZE,
        forall|i: int| 0 <= i < MICROCODE_SIZE ==> #[trigger] rom@[i] == rom_word(i),
{
    let mut rom: Vec<u32> = Vec::new();
    let mut op: usize = 0;
    while op < NUM_OPCODES
        invariant
            op <= NUM_OPCODES,
            rom@.len() == op * 24,
            forall|i: int| 0 <= i < rom@.len() ==> #[trigger] rom@[i] == rom_word(i),
        decreases NUM_OPCODES - op,
    {
        let mut mode: usize = 0;
        while mode < NUM_MODES
            invariant
                op < NUM_OPCODES,
                mode <= NUM_MODES,
                rom@.len() == op * 24 + mode * 6,
                forall|i: int| 0 <= i < rom@.len() ==> #[trigger] rom@[i] == rom_word(i),
            decreases NUM_MODES - mode,
        {
            let steps = execute_steps(op as u32, mode as u32);
            let base = rom.len();
            let mut slot: usize = 0;
            while slot < SLOTS_PER_INSTR
                invariant
                    op < NUM_OPCODES,
                    mode < NUM_MODES,
                    base == op * 24 + mode * 6,
                    slot <= SLOTS_PER_INSTR,
                    steps@ == execute_row(op as u32, mode as u32),
                    rom@.len() == base + slot,
                    forall|i: int| 0 <= i < rom@.len() ==> #[trigger] rom@[i] == rom_word(i),
                decreases SLOTS_PER_INSTR - slot,
            {
                let word = if slot == 0 {
                    PC_TO_AR | MEM_TO_DR
                } else if slot == 1 {
                    DR_TO_CR | PC_INCR
                } else if slot - 2 < steps.len() {
                    steps[slot - 2]
                } else {
                    0
                };
                proof {
                    let i = (base + slot) as int;
                    assert(i / 24 == op as int && (i % 24) / 6 == mode as int && i % 6 == slot as int)
                        by (nonlinear_arith)
                        requires
                            i == op * 24 + mode * 6 + slot,
                            mode < 4,
                            slot < 6,
                    ;
                }
                rom.push(word);
                slot = slot + 1;
            }
            mode = mode + 1;
        }
        op = op + 1;
    }
    rom
}

/// Every row of the ROM begins with the fetch steps: the word at the PC is
/// read, then moved into the command register while the PC advances.
pub proof fn lemma_rows_begin_with_fetch(opcode: u32, mode: u32)
    ensures
        row_entry(opcode, mode, 0) == PC_TO_AR | MEM_TO_DR,
        row_entry(opcode, mode, 1) == DR_TO_CR | PC_INCR,
{
}

/// Every row ends its execute steps with a micro-instruction that carries
/// `DONE`, so that the next tick starts a new fetch.
pub proof fn lemma_rows_end_with_done(opcode: u32, mode: u32)
    requires
        mode < 4,
    ensures
        execute_row(opcode, mode).len() >= 1,
        execute_row(opcode, mode).len() <= 4,
        execute_row(opcode, mode).last() & DONE != 0,
{
    assert(forall|x: u32| #![auto] (x | DONE) & DONE != 0) by (bit_vector);
}

/// The ROM word at a slot of an opcode's row for a mode is that row's entry.
pub proof fn lemma_rom_word_slot(opcode: u32, mode: u32, slot: int)
    requires
        opcode < 22,
        mode < 4,
        0 <= slot < 6,
    ensures
        rom_word(micro_index(opcode as int, mode as int, slot)) == row_entry(opcode, mode, slot),
{
    let i = micro_index(opcode as int, mode as int, slot);
    let q = opcode as int * 4 + mode as int;
    assert(i == opcode as int * 24 + (mode as int * 6 + slot)) by (nonlinear_arith)
        requires i == q * 6 + slot, q == opcode as int * 4 + mode as int;
    vstd::arithmetic::div_mod::lemma_fundamental_div_mod_converse(i, 24, opcode as int, mode as int * 6 + slot);
    vstd::arithmetic::div_mod::lemma_fundamental_div_mod_converse(i % 24, 6, mode as int, slot);
    vstd::arithmetic::div_mod::lemma_fundamental_div_mod_converse(i, 6, q, slot);
}

/// No execute step loads the command register: only the second fetch step
/// does.
pub proof fn lemma_execute_keeps_cr(opcode: u32, mode: u32)
    ensures
        forall|k: int| 0 <= k < execute_row(opcode, mode).len() ==> #[trigger] execute_row(opcode, mode)[k] & DR_TO_CR == 0,
        (PC_TO_AR | MEM_TO_DR) & DR_TO_CR == 0,
{
    assert(forall|x: u32, y: u32| #![auto] (x | y) & DR_TO_CR == 0 <==> (x & DR_TO_CR == 0 && y & DR_TO_CR == 0)) by (bit_vector);
    assert(PC_TO_AR & DR_TO_CR == 0 && OPERAND_TO_AR & DR_TO_CR == 0 && DR_TO_AR & DR_TO_CR == 0
        && MEM_TO_DR & DR_TO_CR == 0 && DR_TO_MEM & DR_TO_CR == 0 && ALU_TO_AC & DR_TO_CR == 0
        && AC_TO_DR & DR_TO_CR == 0 && PC_TO_DR & DR_TO_CR == 0 && SP_TO_AR & DR_TO_CR == 0
        && SP_INCR & DR_TO_CR == 0 && SP_DECR & DR_TO_CR == 0 && DR_TO_PC & DR_TO_CR == 0
        && ALU_TO_PC & DR_TO_CR == 0 && DR_TO_DATA_BUS & DR_TO_CR == 0 && IMM_TO_DATA_BUS & DR_TO_CR == 0
        && UPDATE_FLAGS & DR_TO_CR == 0 && DONE & DR_TO_CR == 0 && HALT & DR_TO_CR == 0) by (bit_vector);
    assert(ALU_PASS & DR_TO_CR == 0 && ALU_ADD & DR_TO_CR == 0 && ALU_SUB & DR_TO_CR == 0
        && ALU_MUL & DR_TO_CR == 0 && ALU_DIV & DR_TO_CR == 0 && ALU_MOD & DR_TO_CR == 0
        && ALU_AND & DR_TO_CR == 0 && ALU_OR & DR_TO_CR == 0 && ALU_XOR & DR_TO_CR == 0
        && ALU_NEG & DR_TO_CR == 0 && ALU_NOT & DR_TO_CR == 0 && COND_ALWAYS & DR_TO_CR == 0
        && COND_Z & DR_TO_CR == 0 && COND_NZ & DR_TO_CR == 0 && COND_N & DR_TO_CR == 0
        && COND_NN & DR_TO_CR == 0) by (bit_vector);
    assert(alu_of(opcode) & DR_TO_CR == 0);
    assert(cond_of(opcode) & DR_TO_CR == 0);
}

} // verus!
