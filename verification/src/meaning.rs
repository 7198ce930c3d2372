//! What the instructions mean on the machine: how a jump row moves the PC, and
//! what the instruction that the compiler emits for a unary operator does to
//! the accumulator.
use vstd::prelude::*;
use crate::isa::{OP_CALL, OP_RET, operand_of, sign_extend_25, OP_JMP, OP_JZS, OP_JZC, OP_JNS, OP_JNC, MODE_DIRECT, MODE_IMM, MODE_INDIRECT};
use crate::signals::{PC_TO_AR, DR_TO_AR, SP_TO_AR, SP_INCR, SP_DECR, ALU_SUB, PC_TO_DR, SP_TO_DR, OPERAND_TO_AR, MEM_TO_DR, DR_TO_MEM, AC_TO_DR, PC_INCR, DR_TO_AC, ALU_TO_AC, DR_TO_PC, ALU_TO_PC, DR_TO_DATA_BUS, IMM_TO_DATA_BUS,
    ZERO_TO_DATA_BUS, UPDATE_FLAGS, DONE, ALU_PASS, ALU_NEG, ALU_NOT};
use crate::microcode::{rom_word, micro_index, execute_row, lemma_rom_word_slot};
use crate::processor::{Processor, cond_holds, micro_step, alu_value, trunc_quotient, lemma_alu_operations, lemma_alu_division};
use crate::asm_cmd::{Mnemonic, AOperand, ACmd, opcode_number};
use crate::ast::{AExpr, UnaryOp, BinaryOp};
use crate::codegen::{Env, Gen, gen_expr, gen_args, table_get, local_name, ret_name, take_labels, lemma_expr_extends, is_comparison, compare_tail, tmp_name, label_name, const_binary, const_eval, ConstEval};
use crate::signals::cond_field;

verus! {

/// The jump step of each jump row (the first execute step in direct and
/// immediate mode, the second in indirect mode) moves the PC to the jump
/// target exactly when the jump's condition holds, and leaves the
/// accumulator and the flags alone: `JMP` always jumps, `JZS` when the zero
/// flag is set, `JZC` when it is clear, `JNS` when the negative flag is set,
/// `JNC` when it is clear. The target is the sign-extended operand in direct
/// and immediate mode, and the word read from memory (the data register) in
/// indirect mode. The step ends the instruction.
pub proof fn lemma_jump_rows(p: Processor, op: u32, mode: u32)
    requires
        op == OP_JMP || op == OP_JZS || op == OP_JZC || op == OP_JNS || op == OP_JNC,
        mode == MODE_DIRECT || mode == MODE_IMM || mode == MODE_INDIRECT,
    ensures
        ({
            let slot: int = if mode == MODE_INDIRECT { 3 } else { 2 };
            let w = rom_word(micro_index(op as int, mode as int, slot));
            let taken = op == OP_JMP || (op == OP_JZS && p.z) || (op == OP_JZC && !p.z) || (op == OP_JNS && p.n)
                || (op == OP_JNC && !p.n);
            let target: u32 = if mode == MODE_INDIRECT { p.dr as u32 } else { sign_extend_25(operand_of(p.cr)) as u32 };
            &&& micro_step(p, w).pc == if taken { target } else { p.pc }
            &&& micro_step(p, w).ac == p.ac
            &&& micro_step(p, w).z == p.z
            &&& micro_step(p, w).n == p.n
            &&& w & DONE != 0
        }),
{
    let slot: int = if mode == MODE_INDIRECT { 3 } else { 2 };
    lemma_rom_word_slot(op, mode, slot);
    let k: u32 = if op == OP_JMP { 0 } else if op == OP_JZS { 1 } else if op == OP_JZC { 2 } else if op == OP_JNS { 3 } else { 4 };
    assert(crate::microcode::cond_of(op) == k << 22u32);
    let w = if mode == MODE_INDIRECT {
        DR_TO_DATA_BUS | ALU_PASS | ALU_TO_PC | (k << 22u32) | DONE
    } else {
        ALU_PASS | IMM_TO_DATA_BUS | ALU_TO_PC | (k << 22u32) | DONE
    };
    assert(w == rom_word(micro_index(op as int, mode as int, slot)));
    let ind = mode == MODE_INDIRECT;
    assert({
        &&& (w & DR_TO_DATA_BUS != 0) == ind
        &&& (w & IMM_TO_DATA_BUS != 0) == !ind
        &&& w & ZERO_TO_DATA_BUS == 0
        &&& (w >> 25u32) & 0xFu32 == 0
        &&& w & ALU_TO_AC == 0
        &&& w & ALU_TO_PC != 0
        &&& (w >> 22u32) & 0x7u32 == k
        &&& w & DR_TO_AC == 0
        &&& w & DR_TO_PC == 0
        &&& w & PC_INCR == 0
        &&& w & UPDATE_FLAGS == 0
        &&& w & DONE != 0
    }) by (bit_vector)
        requires
            k < 8,
            w == if ind {
                DR_TO_DATA_BUS | ALU_PASS | ALU_TO_PC | (k << 22u32) | DONE
            } else {
                ALU_PASS | IMM_TO_DATA_BUS | ALU_TO_PC | (k << 22u32) | DONE
            },
    ;
}

/// The instruction for a negation or bit complement, run by the machine:
/// its one execute step leaves the wrapping negation (for a negation) or the
/// bitwise complement, `-1 - a` (for a complement), of the accumulator `a` in
/// the accumulator, whatever the mode field holds.
pub open spec fn unary_instr_effect(op: UnaryOp, m: Mnemonic) -> bool {
    &&& forall|md: u32| md < 4 ==> (#[trigger] execute_row(opcode_number(m), md)).len() == 1
    &&& forall|p: Processor, md: u32| md < 4 ==> (#[trigger] micro_step(p, execute_row(opcode_number(m), md)[0])).ac as int
        == if op == UnaryOp::Neg {
            if p.ac == i32::MIN { p.ac as int } else { -(p.ac as int) }
        } else {
            -1 - p.ac as int
        }
}

proof fn lemma_unary_rows()
    ensures
        unary_instr_effect(UnaryOp::Neg, Mnemonic::Neg),
        unary_instr_effect(UnaryOp::BitNot, Mnemonic::Not),
{
    let wn = ALU_NEG | ALU_TO_AC | UPDATE_FLAGS | DONE;
    let wc = ALU_NOT | ALU_TO_AC | UPDATE_FLAGS | DONE;
    assert({
        &&& (wn >> 25u32) & 0xFu32 == 9
        &&& (wc >> 25u32) & 0xFu32 == 10
        &&& wn & ALU_TO_AC != 0 && wc & ALU_TO_AC != 0
        &&& wn & DR_TO_AC == 0 && wc & DR_TO_AC == 0
    }) by (bit_vector)
        requires
            wn == ALU_NEG | ALU_TO_AC | UPDATE_FLAGS | DONE,
            wc == ALU_NOT | ALU_TO_AC | UPDATE_FLAGS | DONE,
    ;
    assert forall|p: Processor, md: u32| md < 4 implies (#[trigger] micro_step(p, execute_row(opcode_number(Mnemonic::Neg), md)[0])).ac as int
        == if p.ac == i32::MIN { p.ac as int } else { -(p.ac as int) } by {
        lemma_alu_operations(p.ac, p.data_bus);
    }
    assert forall|p: Processor, md: u32| md < 4 implies (#[trigger] micro_step(p, execute_row(opcode_number(Mnemonic::Not), md)[0])).ac as int
        == -1 - p.ac as int by {
        lemma_alu_operations(p.ac, p.data_bus);
    }
}

/// The code for a unary minus or bit complement is the code of its operand
/// followed by one instruction without an operand, and that instruction,
/// run by the machine, negates or complements the accumulator (see
/// `unary_instr_effect`): so `-x` leaves the wrapping negation of `x`, and
/// `~x` its bitwise complement.
pub proof fn lemma_unary_code(env: Env, op: UnaryOp, e: AExpr, func: Seq<char>, depth: nat, g: Gen)
    requires
        op == UnaryOp::Neg || op == UnaryOp::BitNot,
        gen_expr(env, AExpr::Unary(op, Box::new(e)), func, depth, g) is Some,
    ensures
        ({
            let r = gen_expr(env, AExpr::Unary(op, Box::new(e)), func, depth, g)->0;
            let inner = gen_expr(env, e, func, depth + 1, g);
            &&& inner is Some
            &&& r.code.len() == inner->0.code.len() + 1
            &&& r.code.subrange(0, r.code.len() - 1) == inner->0.code
            &&& r.label == inner->0.label
            &&& match r.code.last() {
                ACmd::Instr(m, o) => o == AOperand::NoOperand && unary_instr_effect(op, m),
                _ => false,
            }
        }),
{
    lemma_unary_rows();
    let r = gen_expr(env, AExpr::Unary(op, Box::new(e)), func, depth, g)->0;
    let inner = gen_expr(env, e, func, depth + 1, g)->0;
    assert(r.code.subrange(0, r.code.len() - 1) =~= inner.code);
}


/// `r` is what arithmetic or bitwise operator `op` gives on `a` and `b`:
/// sums, differences and products modulo 2^32, quotients rounded toward zero
/// and their remainders (where the divisor is not 0 and the quotient fits),
/// and bitwise and, or and exclusive or.
pub open spec fn arith_result(op: BinaryOp, a: i32, b: i32, r: i32) -> bool {
    let m: int = 0x1_0000_0000;
    let divisible = b != 0 && !(a == i32::MIN && b == -1);
    match op {
        BinaryOp::Add => (r as int - (a as int + b as int)) % m == 0,
        BinaryOp::Sub => (r as int - (a as int - b as int)) % m == 0,
        BinaryOp::Mul => (r as int - a as int * b as int) % m == 0,
        BinaryOp::Div => divisible ==> r as int == trunc_quotient(a as int, b as int),
        BinaryOp::Rem => divisible ==> r as int == a as int - b as int * trunc_quotient(a as int, b as int),
        BinaryOp::BitAnd => r == a & b,
        BinaryOp::BitOr => r == a | b,
        BinaryOp::Xor => r == a ^ b,
        _ => false,
    }
}

/// The direct-mode instruction `m`, run by the machine, applies `op`: its
/// first step reads the word at the operand's address into the data
/// register, and its second leaves `op` applied to the accumulator and the
/// data register in the accumulator, and ends the instruction.
pub open spec fn arith_instr_effect(op: BinaryOp, m: Mnemonic) -> bool {
    let row = execute_row(opcode_number(m), MODE_DIRECT);
    &&& row.len() == 2
    &&& row[0] & OPERAND_TO_AR != 0 && row[0] & MEM_TO_DR != 0
    &&& row[1] & DONE != 0
    &&& forall|p: Processor| #[trigger] arith_result(op, p.ac, p.dr, micro_step(p, row[1]).ac)
}

/// The direct-mode store, run by the machine: its first step copies the
/// accumulator into the data register, its second writes the data register
/// to the operand's address.
pub open spec fn store_instr_effect(m: Mnemonic) -> bool {
    let row = execute_row(opcode_number(m), MODE_DIRECT);
    &&& row.len() == 2
    &&& forall|p: Processor| (#[trigger] micro_step(p, row[0])).dr == p.ac
    &&& row[1] & OPERAND_TO_AR != 0 && row[1] & DR_TO_MEM != 0 && row[1] & DONE != 0
}

proof fn lemma_arith_rows(op: BinaryOp)
    requires
        op == BinaryOp::Add || op == BinaryOp::Sub || op == BinaryOp::Mul || op == BinaryOp::Div
            || op == BinaryOp::Rem || op == BinaryOp::BitAnd || op == BinaryOp::BitOr || op == BinaryOp::Xor,
    ensures
        arith_instr_effect(op, crate::codegen::arith_mnemonic(op)),
        store_instr_effect(Mnemonic::St),
{
    let m = crate::codegen::arith_mnemonic(op);
    let row = execute_row(opcode_number(m), MODE_DIRECT);
    let k: u32 = if op == BinaryOp::Add { 1 } else if op == BinaryOp::Sub { 2 } else if op == BinaryOp::Mul { 3 }
        else if op == BinaryOp::Div { 4 } else if op == BinaryOp::Rem { 5 } else if op == BinaryOp::BitAnd { 6 }
        else if op == BinaryOp::BitOr { 7 } else { 8 };
    assert(crate::microcode::alu_of(opcode_number(m)) == k << 25u32);
    let w = DR_TO_DATA_BUS | (k << 25u32) | ALU_TO_AC | UPDATE_FLAGS | DONE;
    assert(row[1] == w);
    let f = OPERAND_TO_AR | MEM_TO_DR;
    assert({
        &&& (w >> 25u32) & 0xFu32 == k
        &&& w & DR_TO_DATA_BUS != 0
        &&& w & IMM_TO_DATA_BUS == 0
        &&& w & ZERO_TO_DATA_BUS == 0
        &&& w & ALU_TO_AC != 0
        &&& w & DR_TO_AC == 0
        &&& w & DONE != 0
        &&& f & OPERAND_TO_AR != 0 && f & MEM_TO_DR != 0
    }) by (bit_vector)
        requires
            k < 16,
            w == DR_TO_DATA_BUS | (k << 25u32) | ALU_TO_AC | UPDATE_FLAGS | DONE,
            f == OPERAND_TO_AR | MEM_TO_DR,
    ;
    assert forall|p: Processor| #[trigger] arith_result(op, p.ac, p.dr, micro_step(p, row[1]).ac) by {
        assert(micro_step(p, w).ac == alu_value(k as u8, p.ac, p.dr));
        lemma_alu_operations(p.ac, p.dr);
        if p.dr != 0 && !(p.ac == i32::MIN && p.dr == -1) {
            lemma_alu_division(p.ac, p.dr);
        }
    }
    let s0 = AC_TO_DR;
    let s1 = OPERAND_TO_AR | DR_TO_MEM | DONE;
    assert(execute_row(opcode_number(Mnemonic::St), MODE_DIRECT) == seq![s0, s1]);
    assert({
        &&& s0 & AC_TO_DR != 0
        &&& s0 & PC_TO_DR == 0
        &&& s0 & SP_TO_DR == 0
        &&& s1 & OPERAND_TO_AR != 0 && s1 & DR_TO_MEM != 0 && s1 & DONE != 0
    }) by (bit_vector)
        requires
            s0 == AC_TO_DR,
            s1 == OPERAND_TO_AR | DR_TO_MEM | DONE,
    ;
}

/// The code for an arithmetic or bitwise operator `l op r` computes the right
/// operand first and stores it in a scratch cell, then computes the left
/// operand, and ends with one direct-mode instruction on that cell which,
/// run by the machine, applies `op` to the accumulator (the left operand) and
/// the cell (the right operand): see `arith_instr_effect` and
/// `store_instr_effect`. So `a - b` leaves `a - b`, not `b - a`.
pub proof fn lemma_arith_code(env: Env, l: AExpr, op: BinaryOp, r: AExpr, func: Seq<char>, depth: nat, g: Gen)
    requires
        op == BinaryOp::Add || op == BinaryOp::Sub || op == BinaryOp::Mul || op == BinaryOp::Div
            || op == BinaryOp::Rem || op == BinaryOp::BitAnd || op == BinaryOp::BitOr || op == BinaryOp::Xor,
        gen_expr(env, AExpr::Binary(Box::new(l), op, Box::new(r)), func, depth, g) is Some,
    ensures
        ({
            let res = gen_expr(env, AExpr::Binary(Box::new(l), op, Box::new(r)), func, depth, g)->0;
            let g1 = gen_expr(env, r, func, depth + 1, g);
            &&& g1 is Some
            &&& store_instr_effect(Mnemonic::St)
            &&& match res.code.last() {
                ACmd::Instr(m, AOperand::Named(cell)) => {
                    let stored = Gen { code: g1->0.code.push(ACmd::Instr(Mnemonic::St, AOperand::Named(cell))), label: g1->0.label };
                    let g2 = gen_expr(env, l, func, depth + 1, stored);
                    &&& g2 is Some
                    &&& res.code == g2->0.code.push(ACmd::Instr(m, AOperand::Named(cell)))
                    &&& res.label == g2->0.label
                    &&& arith_instr_effect(op, m)
                },
                _ => false,
            }
        }),
{
    lemma_arith_rows(op);
    assert(!is_comparison(op));
    let res = gen_expr(env, AExpr::Binary(Box::new(l), op, Box::new(r)), func, depth, g)->0;
    let g1 = gen_expr(env, r, func, depth + 1, g)->0;
    let cell = crate::codegen::tmp_name(depth);
    let stored = Gen { code: g1.code.push(ACmd::Instr(Mnemonic::St, AOperand::Named(cell))), label: g1.label };
    assert(crate::codegen::emit(g1, seq![crate::codegen::ins(Mnemonic::St, crate::codegen::named(cell))]) == stored) by {
        assert(g1.code + seq![ACmd::Instr(Mnemonic::St, AOperand::Named(cell))] =~= stored.code);
    }
    let g2 = gen_expr(env, l, func, depth + 1, stored)->0;
    assert(res.code =~= g2.code.push(ACmd::Instr(crate::codegen::arith_mnemonic(op), AOperand::Named(cell))));
}


/// A jump instruction.
pub open spec fn is_jump(m: Mnemonic) -> bool {
    m == Mnemonic::Jmp || m == Mnemonic::Jzs || m == Mnemonic::Jzc || m == Mnemonic::Jns || m == Mnemonic::Jnc
}

/// Whether the machine takes jump `m` on flags `z` and `n`: the jump step of
/// its direct-mode row in the ROM moves the PC and its condition holds.
pub open spec fn rom_jumps(m: Mnemonic, z: bool, n: bool) -> bool {
    let w = rom_word(micro_index(opcode_number(m) as int, MODE_DIRECT as int, 2));
    w & ALU_TO_PC != 0 && cond_holds(cond_field(w), z, n)
}

/// The index of the first label `name` in `code` from `i` on (the length
/// where there is none).
pub open spec fn label_at(code: Seq<ACmd>, name: Seq<char>, i: int) -> int
    decreases code.len() - i,
{
    if i < 0 || i >= code.len() {
        code.len() as int
    } else if code[i] == ACmd::Label(name) {
        i
    } else {
        label_at(code, name, i + 1)
    }
}

/// The accumulator after running `code` from index `i` on flags `z` and `n`
/// until it runs off the end: a load of an immediate sets the accumulator, a
/// jump to a label goes there when the machine takes it (see `rom_jumps`), a
/// label does nothing. `None` for any other command, or after `fuel` steps.
pub open spec fn run_jumps(code: Seq<ACmd>, i: int, z: bool, n: bool, ac: i32, fuel: nat) -> Option<i32>
    decreases fuel,
{
    if fuel == 0 {
        None
    } else if i < 0 || i >= code.len() {
        Some(ac)
    } else {
        match code[i] {
            ACmd::Label(_) => run_jumps(code, i + 1, z, n, ac, (fuel - 1) as nat),
            ACmd::Instr(Mnemonic::Ld, AOperand::Immediate(v)) => run_jumps(code, i + 1, z, n, v, (fuel - 1) as nat),
            ACmd::Instr(m, AOperand::Named(t)) => if !is_jump(m) {
                None
            } else if rom_jumps(m, z, n) {
                run_jumps(code, label_at(code, t, 0), z, n, ac, (fuel - 1) as nat)
            } else {
                run_jumps(code, i + 1, z, n, ac, (fuel - 1) as nat)
            },
            _ => None,
        }
    }
}

/// The machine takes `JMP` always, `JZS` on a set zero flag, `JZC` on a clear
/// one, `JNS` on a set negative flag and `JNC` on a clear one.
pub proof fn lemma_rom_jumps(z: bool, n: bool)
    ensures
        rom_jumps(Mnemonic::Jmp, z, n),
        rom_jumps(Mnemonic::Jzs, z, n) == z,
        rom_jumps(Mnemonic::Jzc, z, n) == !z,
        rom_jumps(Mnemonic::Jns, z, n) == n,
        rom_jumps(Mnemonic::Jnc, z, n) == !n,
{
    assert forall|op: u32| op == OP_JMP || op == OP_JZS || op == OP_JZC || op == OP_JNS || op == OP_JNC implies {
        let w = #[trigger] rom_word(micro_index(op as int, MODE_DIRECT as int, 2));
        let k: u32 = if op == OP_JMP { 0 } else if op == OP_JZS { 1 } else if op == OP_JZC { 2 } else if op == OP_JNS { 3 } else { 4 };
        w & ALU_TO_PC != 0 && cond_field(w) == k
    } by {
        lemma_rom_word_slot(op, MODE_DIRECT, 2);
        let k: u32 = if op == OP_JMP { 0 } else if op == OP_JZS { 1 } else if op == OP_JZC { 2 } else if op == OP_JNS { 3 } else { 4 };
        assert(crate::microcode::cond_of(op) == k << 22u32);
        let w = ALU_PASS | IMM_TO_DATA_BUS | ALU_TO_PC | (k << 22u32) | DONE;
        assert(w & ALU_TO_PC != 0 && (w >> 22u32) & 0x7u32 == k) by (bit_vector)
            requires
                k < 8,
                w == ALU_PASS | IMM_TO_DATA_BUS | ALU_TO_PC | (k << 22u32) | DONE,
        ;
    }
    assert(rom_word(micro_index(OP_JMP as int, MODE_DIRECT as int, 2)) == rom_word(micro_index(opcode_number(Mnemonic::Jmp) as int, MODE_DIRECT as int, 2)));
    assert(rom_word(micro_index(OP_JZS as int, MODE_DIRECT as int, 2)) == rom_word(micro_index(opcode_number(Mnemonic::Jzs) as int, MODE_DIRECT as int, 2)));
    assert(rom_word(micro_index(OP_JZC as int, MODE_DIRECT as int, 2)) == rom_word(micro_index(opcode_number(Mnemonic::Jzc) as int, MODE_DIRECT as int, 2)));
    assert(rom_word(micro_index(OP_JNS as int, MODE_DIRECT as int, 2)) == rom_word(micro_index(opcode_number(Mnemonic::Jns) as int, MODE_DIRECT as int, 2)));
    assert(rom_word(micro_index(OP_JNC as int, MODE_DIRECT as int, 2)) == rom_word(micro_index(opcode_number(Mnemonic::Jnc) as int, MODE_DIRECT as int, 2)));
}

/// The code that follows the `CMP` of a comparison leaves 1 or 0 in the
/// accumulator by the flags of the `CMP`: `==` gives 1 on a set zero flag,
/// `!=` on a clear one, `<` on a set negative flag, `<=` on either flag set,
/// and `>` and `>=` both on a clear negative flag (so `>` holds of equal
/// operands too).
#[verifier::spinoff_prover]
#[verifier::rlimit(40)]
pub proof fn lemma_compare_tail(op: BinaryOp, t: Seq<char>, e: Seq<char>, z: bool, n: bool, ac: i32)
    requires
        is_comparison(op),
        t != e,
    ensures
        run_jumps(compare_tail(op, t, e), 0, z, n, ac, 10) == Some(if match op {
            BinaryOp::Eq => z,
            BinaryOp::NotEq => !z,
            BinaryOp::Less => n,
            BinaryOp::LessEq => z || n,
            _ => !n,
        } { 1i32 } else { 0i32 }),
{
    lemma_rom_jumps(z, n);
    let code = compare_tail(op, t, e);
    reveal_with_fuel(run_jumps, 11);
    reveal_with_fuel(label_at, 8);
    if op == BinaryOp::LessEq {
        assert(label_at(code, t, 0) == 4);
        assert(label_at(code, e, 0) == 6);
    } else {
        assert(label_at(code, t, 0) == 3);
        assert(label_at(code, e, 0) == 5);
    }
}


/// `a - b` wrapped into `i32`.
pub open spec fn wrapped_difference(a: i32, b: i32) -> int {
    let d = a as int - b as int;
    if d > i32::MAX as int {
        d - 0x1_0000_0000
    } else if d < i32::MIN as int {
        d + 0x1_0000_0000
    } else {
        d
    }
}

/// The direct-mode `CMP`, run by the machine: its first step reads the word
/// at the operand's address into the data register; its second leaves the
/// accumulator alone and sets the zero flag when the accumulator equals the
/// data register and the negative flag when their wrapped difference is
/// negative.
pub open spec fn compare_instr_effect() -> bool {
    let row = execute_row(opcode_number(Mnemonic::Cmp), MODE_DIRECT);
    &&& row.len() == 2
    &&& row[0] & OPERAND_TO_AR != 0 && row[0] & MEM_TO_DR != 0
    &&& row[1] & DONE != 0
    &&& forall|p: Processor| #![trigger micro_step(p, row[1])] {
        &&& micro_step(p, row[1]).ac == p.ac
        &&& micro_step(p, row[1]).z == (p.ac == p.dr)
        &&& micro_step(p, row[1]).n == (wrapped_difference(p.ac, p.dr) < 0)
    }
}

proof fn lemma_compare_row()
    ensures
        compare_instr_effect(),
{
    let row = execute_row(opcode_number(Mnemonic::Cmp), MODE_DIRECT);
    let f = OPERAND_TO_AR | MEM_TO_DR;
    let w = DR_TO_DATA_BUS | ALU_SUB | UPDATE_FLAGS | DONE;
    assert(row == seq![f, w]);
    assert({
        &&& f & OPERAND_TO_AR != 0 && f & MEM_TO_DR != 0
        &&& (w >> 25u32) & 0xFu32 == 2
        &&& w & DR_TO_DATA_BUS != 0
        &&& w & IMM_TO_DATA_BUS == 0
        &&& w & ZERO_TO_DATA_BUS == 0
        &&& w & ALU_TO_AC == 0
        &&& w & ALU_TO_PC == 0
        &&& w & DR_TO_AC == 0
        &&& w & UPDATE_FLAGS != 0
        &&& w & DONE != 0
    }) by (bit_vector)
        requires
            f == OPERAND_TO_AR | MEM_TO_DR,
            w == DR_TO_DATA_BUS | ALU_SUB | UPDATE_FLAGS | DONE,
    ;
    assert forall|p: Processor| #![trigger micro_step(p, row[1])] {
        &&& micro_step(p, row[1]).ac == p.ac
        &&& micro_step(p, row[1]).z == (p.ac == p.dr)
        &&& micro_step(p, row[1]).n == (wrapped_difference(p.ac, p.dr) < 0)
    } by {
        assert(micro_step(p, w).ac == p.ac);
        let out = alu_value(2, p.ac, p.dr);
        assert(out as int == wrapped_difference(p.ac, p.dr));
    }
}

/// Consecutive labels have different names.
proof fn lemma_labels_differ(k: nat)
    ensures
        label_name(k) != label_name(k + 1),
{
    let a = label_name(k);
    let b = label_name(k + 1);
    assert(a.last() == crate::text::digit_char(k % 10));
    assert(b.last() == crate::text::digit_char((k + 1) % 10));
}

/// The code for a comparison `l op r` computes the right operand first and
/// stores it in a scratch cell, computes the left operand, compares the
/// accumulator with the cell (see `compare_instr_effect`), and ends with code
/// that leaves 1 or 0 by the flags of that comparison (see
/// `lemma_compare_tail`): with `d` the wrapped difference `l - r`, `==` gives
/// 1 when `l == r`, `!=` when not, `<` when `d < 0`, `<=` when `l == r` or
/// `d < 0`, and `>` and `>=` when `d >= 0`.
pub proof fn lemma_compare_code(env: Env, l: AExpr, op: BinaryOp, r: AExpr, func: Seq<char>, depth: nat, g: Gen)
    requires
        is_comparison(op),
        gen_expr(env, AExpr::Binary(Box::new(l), op, Box::new(r)), func, depth, g) is Some,
    ensures
        ({
            let res = gen_expr(env, AExpr::Binary(Box::new(l), op, Box::new(r)), func, depth, g)->0;
            let cell = tmp_name(depth);
            let g1 = gen_expr(env, r, func, depth + 1, g);
            let stored = Gen { code: g1->0.code.push(ACmd::Instr(Mnemonic::St, AOperand::Named(cell))), label: g1->0.label };
            let g2 = gen_expr(env, l, func, depth + 1, stored);
            let k = g2->0.code.len() as int;
            &&& g1 is Some
            &&& g2 is Some
            &&& store_instr_effect(Mnemonic::St)
            &&& compare_instr_effect()
            &&& res.code.len() > k
            &&& res.code.subrange(0, k) == g2->0.code
            &&& res.code[k] == ACmd::Instr(Mnemonic::Cmp, AOperand::Named(cell))
            &&& forall|z: bool, n: bool, ac: i32| #[trigger] run_jumps(res.code.subrange(k + 1, res.code.len() as int), 0, z, n, ac, 10)
                == Some(if match op {
                    BinaryOp::Eq => z,
                    BinaryOp::NotEq => !z,
                    BinaryOp::Less => n,
                    BinaryOp::LessEq => z || n,
                    _ => !n,
                } { 1i32 } else { 0i32 })
        }),
{
    lemma_arith_rows(BinaryOp::Add);
    lemma_compare_row();
    let res = gen_expr(env, AExpr::Binary(Box::new(l), op, Box::new(r)), func, depth, g)->0;
    let cell = tmp_name(depth);
    let g1 = gen_expr(env, r, func, depth + 1, g)->0;
    let stored = Gen { code: g1.code.push(ACmd::Instr(Mnemonic::St, AOperand::Named(cell))), label: g1.label };
    assert(crate::codegen::emit(g1, seq![crate::codegen::ins(Mnemonic::St, crate::codegen::named(cell))]) == stored) by {
        assert(g1.code + seq![ACmd::Instr(Mnemonic::St, AOperand::Named(cell))] =~= stored.code);
    }
    let g2 = gen_expr(env, l, func, depth + 1, stored)->0;
    let k = g2.code.len() as int;
    let cg = crate::codegen::emit(g2, seq![crate::codegen::ins(Mnemonic::Cmp, crate::codegen::named(cell))]);
    let t = label_name(cg.label);
    let e = label_name(cg.label + 1);
    lemma_labels_differ(cg.label);
    assert(res.code == g2.code + seq![ACmd::Instr(Mnemonic::Cmp, AOperand::Named(cell))] + compare_tail(op, t, e));
    assert(res.code.subrange(0, k) =~= g2.code);
    assert(res.code.subrange(k + 1, res.code.len() as int) =~= compare_tail(op, t, e));
    assert forall|z: bool, n: bool, ac: i32| #[trigger] run_jumps(res.code.subrange(k + 1, res.code.len() as int), 0, z, n, ac, 10)
        == Some(if match op {
            BinaryOp::Eq => z,
            BinaryOp::NotEq => !z,
            BinaryOp::Less => n,
            BinaryOp::LessEq => z || n,
            _ => !n,
        } { 1i32 } else { 0i32 }) by {
        lemma_compare_tail(op, t, e, z, n, ac);
    }
}


/// Constant folding computes what the operators mean: an arithmetic or
/// bitwise operator folds to the value that the machine's instruction for it
/// computes (see `arith_result`), and faults exactly where the exact result
/// does not fit `i32` or the divisor is 0; a comparison or logical operator
/// folds to 1 when it holds of the two values and to 0 when not.
pub proof fn lemma_constant_folding(op: BinaryOp, l: i32, r: i32)
    ensures
        (op == BinaryOp::Add || op == BinaryOp::Sub || op == BinaryOp::Mul || op == BinaryOp::Div
            || op == BinaryOp::Rem || op == BinaryOp::BitAnd || op == BinaryOp::BitOr || op == BinaryOp::Xor)
            ==> match const_binary(op, l, r) {
                ConstEval::Value(v) => arith_result(op, l, r, v),
                _ => true,
            },
        op == BinaryOp::Add ==> (const_binary(op, l, r) is Fault <==> !(i32::MIN <= l as int + r as int <= i32::MAX)),
        op == BinaryOp::Sub ==> (const_binary(op, l, r) is Fault <==> !(i32::MIN <= l as int - r as int <= i32::MAX)),
        op == BinaryOp::Mul ==> (const_binary(op, l, r) is Fault <==> !(i32::MIN <= l as int * r as int <= i32::MAX)),
        (op == BinaryOp::Div || op == BinaryOp::Rem) ==> (const_binary(op, l, r) is Fault <==> (r == 0 || (l == i32::MIN
            && r == -1))),
        (op == BinaryOp::BitAnd || op == BinaryOp::BitOr || op == BinaryOp::Xor) ==> const_binary(op, l, r) is Value,
        is_comparison(op) || op == BinaryOp::And || op == BinaryOp::Or ==> const_binary(op, l, r) == ConstEval::Value(
            if match op {
                BinaryOp::Eq => l == r,
                BinaryOp::NotEq => l != r,
                BinaryOp::Less => l < r,
                BinaryOp::LessEq => l <= r,
                BinaryOp::Greater => l > r,
                BinaryOp::GreaterEq => l >= r,
                BinaryOp::And => l != 0 && r != 0,
                _ => l != 0 || r != 0,
            } { 1i32 } else { 0i32 }),
{
    lemma_alu_operations(l, r);
    if r != 0 && !(l == i32::MIN && r == -1) {
        lemma_alu_division(l, r);
    }
    let m: int = 0x1_0000_0000;
    assert((0int) % m == 0);
}

/// Constant folding of a unary operator: negation folds to `-v` and faults
/// only on `i32::MIN`; both `!` and `~` fold to the bitwise complement
/// `-1 - v`.
pub proof fn lemma_constant_unary(op: UnaryOp, e: AExpr, v: i32)
    requires
        const_eval(e) == ConstEval::Value(v),
    ensures
        op == UnaryOp::Neg ==> const_eval(AExpr::Unary(op, Box::new(e))) == if v == i32::MIN {
            ConstEval::Fault
        } else {
            ConstEval::Value((-v) as i32)
        },
        op != UnaryOp::Neg ==> (const_eval(AExpr::Unary(op, Box::new(e))) matches ConstEval::Value(w) && w as int == -1
            - v as int),
{
    lemma_alu_operations(v, 0);
    assert(alu_value(10, v, 0) == !v);
}


/// The immediate-mode `CMP`, run by the machine: its one step leaves the
/// accumulator alone and sets the flags from the accumulator and the
/// sign-extended operand as the direct-mode one does from the data register.
pub open spec fn compare_imm_effect() -> bool {
    let row = execute_row(opcode_number(Mnemonic::Cmp), MODE_IMM);
    &&& row.len() == 1
    &&& row[0] & DONE != 0
    &&& forall|p: Processor| #![trigger micro_step(p, row[0])] {
        let v = sign_extend_25(operand_of(p.cr));
        &&& micro_step(p, row[0]).ac == p.ac
        &&& micro_step(p, row[0]).z == (p.ac == v)
        &&& micro_step(p, row[0]).n == (wrapped_difference(p.ac, v) < 0)
    }
}

proof fn lemma_compare_imm_row()
    ensures
        compare_imm_effect(),
{
    let row = execute_row(opcode_number(Mnemonic::Cmp), MODE_IMM);
    let w = IMM_TO_DATA_BUS | ALU_SUB | UPDATE_FLAGS | DONE;
    assert(row == seq![w]);
    assert({
        &&& (w >> 25u32) & 0xFu32 == 2
        &&& w & DR_TO_DATA_BUS == 0
        &&& w & IMM_TO_DATA_BUS != 0
        &&& w & ZERO_TO_DATA_BUS == 0
        &&& w & ALU_TO_AC == 0
        &&& w & ALU_TO_PC == 0
        &&& w & DR_TO_AC == 0
        &&& w & UPDATE_FLAGS != 0
        &&& w & DONE != 0
    }) by (bit_vector)
        requires
            w == IMM_TO_DATA_BUS | ALU_SUB | UPDATE_FLAGS | DONE,
    ;
    assert forall|p: Processor| #![trigger micro_step(p, row[0])] {
        let v = sign_extend_25(operand_of(p.cr));
        &&& micro_step(p, row[0]).ac == p.ac
        &&& micro_step(p, row[0]).z == (p.ac == v)
        &&& micro_step(p, row[0]).n == (wrapped_difference(p.ac, v) < 0)
    } by {
        let v = sign_extend_25(operand_of(p.cr));
        assert(micro_step(p, w).ac == p.ac);
        let out = alu_value(2, p.ac, v);
        assert(out as int == wrapped_difference(p.ac, v));
    }
}

/// The accumulator after running `code` from index `i` until it runs off the
/// end, with flags `z` and `n` and named cells `mem`: a load of an immediate
/// sets the accumulator, a store writes it to a cell, a compare with an
/// immediate or a cell sets the flags as the machine's `CMP` does (see
/// `compare_instr_effect` and `compare_imm_effect`), a jump to a label goes
/// there when the machine takes it (see `rom_jumps`), a label does nothing.
/// `None` for any other command, a compare with a cell not written, or after
/// `fuel` steps.
pub open spec fn run_cells(code: Seq<ACmd>, i: int, z: bool, n: bool, ac: i32, mem: Map<Seq<char>, i32>, fuel: nat) -> Option<i32>
    decreases fuel,
{
    if fuel == 0 {
        None
    } else if i < 0 || i >= code.len() {
        Some(ac)
    } else {
        let f = (fuel - 1) as nat;
        match code[i] {
            ACmd::Label(_) => run_cells(code, i + 1, z, n, ac, mem, f),
            ACmd::Instr(Mnemonic::Ld, AOperand::Immediate(v)) => run_cells(code, i + 1, z, n, v, mem, f),
            ACmd::Instr(Mnemonic::St, AOperand::Named(c)) => run_cells(code, i + 1, z, n, ac, mem.insert(c, ac), f),
            ACmd::Instr(Mnemonic::Cmp, AOperand::Immediate(v)) => run_cells(code, i + 1, ac == v,
                wrapped_difference(ac, v) < 0, ac, mem, f),
            ACmd::Instr(Mnemonic::Cmp, AOperand::Named(c)) => if mem.contains_key(c) {
                run_cells(code, i + 1, ac == mem[c], wrapped_difference(ac, mem[c]) < 0, ac, mem, f)
            } else {
                None
            },
            ACmd::Instr(m, AOperand::Named(t)) => if !is_jump(m) {
                None
            } else if rom_jumps(m, z, n) {
                run_cells(code, label_at(code, t, 0), z, n, ac, mem, f)
            } else {
                run_cells(code, i + 1, z, n, ac, mem, f)
            },
            _ => None,
        }
    }
}

/// The code for `!e` is the code of `e` followed by code that, run after a
/// value `a` is in the accumulator, leaves 1 when `a` is 0 and 0 otherwise.
#[verifier::spinoff_prover]
#[verifier::rlimit(40)]
pub proof fn lemma_not_code(env: Env, e: AExpr, func: Seq<char>, depth: nat, g: Gen)
    requires
        gen_expr(env, AExpr::Unary(UnaryOp::Not, Box::new(e)), func, depth, g) is Some,
    ensures
        ({
            let res = gen_expr(env, AExpr::Unary(UnaryOp::Not, Box::new(e)), func, depth, g)->0;
            let g1 = gen_expr(env, e, func, depth + 1, g);
            let k = g1->0.code.len() as int;
            &&& g1 is Some
            &&& store_instr_effect(Mnemonic::St)
            &&& compare_instr_effect()
            &&& res.code.len() >= k
            &&& res.code.subrange(0, k) == g1->0.code
            &&& forall|a: i32| #[trigger] run_cells(seq![ACmd::Instr(Mnemonic::Ld, AOperand::Immediate(a))]
                + res.code.subrange(k, res.code.len() as int), 0, false, false, 0, Map::empty(), 12)
                == Some(if a == 0 { 1i32 } else { 0i32 })
        }),
{
    lemma_arith_rows(BinaryOp::Add);
    lemma_compare_row();
    lemma_rom_jumps(true, false);
    lemma_rom_jumps(false, false);
    lemma_rom_jumps(false, true);
    let res = gen_expr(env, AExpr::Unary(UnaryOp::Not, Box::new(e)), func, depth, g)->0;
    let g1 = gen_expr(env, e, func, depth + 1, g)->0;
    let k = g1.code.len() as int;
    let tmp = tmp_name(depth);
    let t = label_name(g1.label);
    let l = label_name(g1.label + 1);
    lemma_labels_differ(g1.label);
    let tail = seq![ACmd::Instr(Mnemonic::St, AOperand::Named(tmp)), ACmd::Instr(Mnemonic::Ld, AOperand::Immediate(0)),
        ACmd::Instr(Mnemonic::Cmp, AOperand::Named(tmp)), ACmd::Instr(Mnemonic::Jzs, AOperand::Named(t)),
        ACmd::Instr(Mnemonic::Ld, AOperand::Immediate(0)), ACmd::Instr(Mnemonic::Jmp, AOperand::Named(l)),
        ACmd::Label(t), ACmd::Instr(Mnemonic::Ld, AOperand::Immediate(1)), ACmd::Label(l)];
    assert(res.code == g1.code + tail);
    assert(res.code.subrange(0, k) =~= g1.code);
    assert(res.code.subrange(k, res.code.len() as int) =~= tail);
    assert forall|a: i32| #[trigger] run_cells(seq![ACmd::Instr(Mnemonic::Ld, AOperand::Immediate(a))]
        + res.code.subrange(k, res.code.len() as int), 0, false, false, 0, Map::empty(), 12)
        == Some(if a == 0 { 1i32 } else { 0i32 }) by {
        let code = seq![ACmd::Instr(Mnemonic::Ld, AOperand::Immediate(a))] + tail;
        assert(seq![ACmd::Instr(Mnemonic::Ld, AOperand::Immediate(a))] + res.code.subrange(k, res.code.len() as int) == code);
        reveal_with_fuel(run_cells, 13);
        reveal_with_fuel(label_at, 11);
        assert(label_at(code, t, 0) == 7);
        assert(label_at(code, l, 0) == 9);
        let mem = Map::<Seq<char>, i32>::empty().insert(tmp, a);
        assert(mem.contains_key(tmp) && mem[tmp] == a);
    }
}


/// The code for `l && r` and `l || r` is the code of `l`, two commands, the
/// code of `r` (evaluated after them, on every path), and a tail; the
/// commands around the operands, run with `a` and then `b` as the operands'
/// values, leave 1 when both (for `&&`) or either (for `||`) are non-zero,
/// and 0 otherwise, skipping `r`'s value when `a` decides.
#[verifier::spinoff_prover]
#[verifier::rlimit(60)]
pub proof fn lemma_logic_code(env: Env, l: AExpr, op: BinaryOp, r: AExpr, func: Seq<char>, depth: nat, g: Gen)
    requires
        op == BinaryOp::And || op == BinaryOp::Or,
        gen_expr(env, AExpr::Binary(Box::new(l), op, Box::new(r)), func, depth, g) is Some,
    ensures
        ({
            let res = gen_expr(env, AExpr::Binary(Box::new(l), op, Box::new(r)), func, depth, g)->0;
            let g1 = gen_expr(env, l, func, depth, g);
            let k1 = g1->0.code.len() as int;
            let g2 = Gen { code: res.code.subrange(0, k1 + 2), label: g1->0.label + 2 };
            let g3 = gen_expr(env, r, func, depth, g2);
            let k3 = g3->0.code.len() as int;
            &&& g1 is Some
            &&& g3 is Some
            &&& k1 + 2 <= k3 <= res.code.len()
            &&& res.code.subrange(0, k1) == g1->0.code
            &&& res.code.subrange(0, k3) == g3->0.code
            &&& compare_imm_effect()
            &&& forall|a: i32, b: i32| #[trigger] run_cells(seq![ACmd::Instr(Mnemonic::Ld, AOperand::Immediate(a))]
                + res.code.subrange(k1, k1 + 2) + seq![ACmd::Instr(Mnemonic::Ld, AOperand::Immediate(b))]
                + res.code.subrange(k3, res.code.len() as int), 0, false, false, 0, Map::empty(), 14)
                == Some(if (if op == BinaryOp::And { a != 0 && b != 0 } else { a != 0 || b != 0 }) { 1i32 } else { 0i32 })
        }),
{
    lemma_compare_imm_row();
    lemma_rom_jumps(true, false);
    lemma_rom_jumps(false, false);
    lemma_rom_jumps(false, true);
    let res = gen_expr(env, AExpr::Binary(Box::new(l), op, Box::new(r)), func, depth, g)->0;
    let g1 = gen_expr(env, l, func, depth, g)->0;
    let k1 = g1.code.len() as int;
    let jump = if op == BinaryOp::And { Mnemonic::Jzs } else { Mnemonic::Jzc };
    let t = label_name(g1.label);
    let x = label_name(g1.label + 1);
    lemma_labels_differ(g1.label);
    let mid = seq![ACmd::Instr(Mnemonic::Cmp, AOperand::Immediate(0)), ACmd::Instr(jump, AOperand::Named(t))];
    let g2r = crate::codegen::emit(take_labels(g1), mid);
    let g3 = gen_expr(env, r, func, depth, g2r)->0;
    let (first, second) = if op == BinaryOp::And { (1i32, 0i32) } else { (0i32, 1i32) };
    let tail = seq![ACmd::Instr(Mnemonic::Cmp, AOperand::Immediate(0)), ACmd::Instr(jump, AOperand::Named(t)),
        ACmd::Instr(Mnemonic::Ld, AOperand::Immediate(first)), ACmd::Instr(Mnemonic::Jmp, AOperand::Named(x)),
        ACmd::Label(t), ACmd::Instr(Mnemonic::Ld, AOperand::Immediate(second)), ACmd::Label(x)];
    assert(res.code == g3.code + tail);
    lemma_expr_extends(env, r, func, depth, g2r);
    assert(res.code.subrange(0, g3.code.len() as int) =~= g3.code);
    assert(res.code.subrange(0, k1 + 2) =~= g2r.code) by {
        assert(g3.code.subrange(0, k1 + 2) == g2r.code);
    }
    assert(res.code.subrange(0, k1) =~= g1.code) by {
        assert(g2r.code.subrange(0, k1) =~= g1.code);
    }
    assert(res.code.subrange(k1, k1 + 2) =~= mid);
    assert(res.code.subrange(g3.code.len() as int, res.code.len() as int) =~= tail);
    assert forall|a: i32, b: i32| #[trigger] run_cells(seq![ACmd::Instr(Mnemonic::Ld, AOperand::Immediate(a))]
        + res.code.subrange(k1, k1 + 2) + seq![ACmd::Instr(Mnemonic::Ld, AOperand::Immediate(b))]
        + res.code.subrange(g3.code.len() as int, res.code.len() as int), 0, false, false, 0, Map::empty(), 14)
        == Some(if (if op == BinaryOp::And { a != 0 && b != 0 } else { a != 0 || b != 0 }) { 1i32 } else { 0i32 }) by {
        let code = seq![ACmd::Instr(Mnemonic::Ld, AOperand::Immediate(a))] + mid
            + seq![ACmd::Instr(Mnemonic::Ld, AOperand::Immediate(b))] + tail;
        assert(seq![ACmd::Instr(Mnemonic::Ld, AOperand::Immediate(a))] + res.code.subrange(k1, k1 + 2)
            + seq![ACmd::Instr(Mnemonic::Ld, AOperand::Immediate(b))]
            + res.code.subrange(g3.code.len() as int, res.code.len() as int) == code);
        reveal_with_fuel(run_cells, 15);
        reveal_with_fuel(label_at, 12);
        assert(code[8] == ACmd::Label(t));
        assert(label_at(code, t, 0) == 8);
        assert(label_at(code, x, 0) == 10);
    }
}


/// The load instruction, run by the machine: in immediate mode its one step
/// puts the sign-extended operand in the accumulator; in direct mode its
/// first step reads the word at the operand's address into the data
/// register and its second moves that word into the accumulator.
pub open spec fn load_instr_effect() -> bool {
    let imm = execute_row(opcode_number(Mnemonic::Ld), MODE_IMM);
    let dir = execute_row(opcode_number(Mnemonic::Ld), MODE_DIRECT);
    &&& imm.len() == 1 && imm[0] & DONE != 0
    &&& forall|p: Processor| (#[trigger] micro_step(p, imm[0])).ac == sign_extend_25(operand_of(p.cr))
    &&& dir.len() == 2 && dir[0] & OPERAND_TO_AR != 0 && dir[0] & MEM_TO_DR != 0 && dir[1] & DONE != 0
    &&& forall|p: Processor| (#[trigger] micro_step(p, dir[1])).ac == p.dr
}

/// See `load_instr_effect`.
pub proof fn lemma_load_rows()
    ensures
        load_instr_effect(),
{
    let imm = execute_row(opcode_number(Mnemonic::Ld), MODE_IMM);
    let dir = execute_row(opcode_number(Mnemonic::Ld), MODE_DIRECT);
    let wi = IMM_TO_DATA_BUS | ALU_PASS | ALU_TO_AC | UPDATE_FLAGS | DONE;
    let f = OPERAND_TO_AR | MEM_TO_DR;
    let wd = DR_TO_DATA_BUS | ALU_PASS | ALU_TO_AC | UPDATE_FLAGS | DONE;
    assert(imm == seq![wi]);
    assert(dir == seq![f, wd]);
    assert({
        &&& (wi >> 25u32) & 0xFu32 == 0 && (wd >> 25u32) & 0xFu32 == 0
        &&& wi & IMM_TO_DATA_BUS != 0 && wi & ZERO_TO_DATA_BUS == 0 && wi & ALU_TO_AC != 0 && wi & DR_TO_AC == 0
        &&& wd & DR_TO_DATA_BUS != 0 && wd & IMM_TO_DATA_BUS == 0 && wd & ZERO_TO_DATA_BUS == 0
        &&& wd & ALU_TO_AC != 0 && wd & DR_TO_AC == 0
        &&& wi & DONE != 0 && wd & DONE != 0 && f & OPERAND_TO_AR != 0 && f & MEM_TO_DR != 0
    }) by (bit_vector)
        requires
            wi == IMM_TO_DATA_BUS | ALU_PASS | ALU_TO_AC | UPDATE_FLAGS | DONE,
            f == OPERAND_TO_AR | MEM_TO_DR,
            wd == DR_TO_DATA_BUS | ALU_PASS | ALU_TO_AC | UPDATE_FLAGS | DONE,
    ;
}


/// The assembly text and the disassembler agree: the opcode that the
/// assembler encodes for an instruction disassembles to the name that the
/// assembly text gives it, and distinct instructions (but for the indirect
/// forms of `LD` and `ST`) get distinct opcodes.
pub proof fn lemma_names_agree(m: Mnemonic, m2: Mnemonic)
    ensures
        crate::isa::mnemonic_text(opcode_number(m)) == crate::asm_cmd::mnemonic_name(m),
        opcode_number(m) == opcode_number(m2) ==> (m == m2 || (m == Mnemonic::Ld && m2 == Mnemonic::Ldi)
            || (m == Mnemonic::Ldi && m2 == Mnemonic::Ld) || (m == Mnemonic::St && m2 == Mnemonic::Sti)
            || (m == Mnemonic::Sti && m2 == Mnemonic::St)),
{
}


/// The code after the first `i` arguments of a call, read from the left:
/// each argument's code followed by a store of its value in the callee's
/// cell for the parameter of the same position. `None` where an argument has
/// no code or no parameter.
pub open spec fn args_done(env: Env, args: Seq<AExpr>, pnames: Seq<Seq<char>>, callee: Seq<char>, func: Seq<char>,
    depth: nat, g: Gen, i: nat) -> Option<Gen>
    decreases i,
{
    if i == 0 {
        Some(g)
    } else {
        match args_done(env, args, pnames, callee, func, depth, g, (i - 1) as nat) {
            None => None,
            Some(h) => if i - 1 >= args.len() || i - 1 >= pnames.len() {
                None
            } else {
                match gen_expr(env, args[i - 1], func, depth, h) {
                    None => None,
                    Some(h1) => Some(Gen {
                        code: h1.code.push(ACmd::Instr(Mnemonic::St, AOperand::Named(local_name(pnames[i - 1], callee)))),
                        label: h1.label,
                    }),
                }
            },
        }
    }
}

proof fn lemma_args_from_left(env: Env, args: Seq<AExpr>, pnames: Seq<Seq<char>>, callee: Seq<char>, func: Seq<char>,
    depth: nat, g: Gen, h: Gen, i: nat)
    requires
        gen_args(env, args, 0, pnames, callee, func, depth, g) == Some(h),
        i <= args.len(),
    ensures
        args_done(env, args, pnames, callee, func, depth, g, i) is Some,
        gen_args(env, args.subrange(i as int, args.len() as int), i, pnames, callee, func, depth,
            args_done(env, args, pnames, callee, func, depth, g, i)->0) == Some(h),
    decreases i,
{
    if i == 0 {
        assert(args.subrange(0, args.len() as int) =~= args);
    } else {
        let j = (i - 1) as nat;
        lemma_args_from_left(env, args, pnames, callee, func, depth, g, h, j);
        let hj = args_done(env, args, pnames, callee, func, depth, g, j)->0;
        let sub = args.subrange(j as int, args.len() as int);
        assert(sub[0] == args[j as int]);
        assert(sub.subrange(1, sub.len() as int) =~= args.subrange(i as int, args.len() as int));
        let h1 = gen_expr(env, args[j as int], func, depth, hj)->0;
        assert(crate::codegen::emit(h1, seq![crate::codegen::ins(Mnemonic::St, crate::codegen::named(local_name(pnames[j as int], callee)))])
            == Gen { code: h1.code.push(ACmd::Instr(Mnemonic::St, AOperand::Named(local_name(pnames[j as int], callee)))), label: h1.label }) by {
            assert(h1.code + seq![ACmd::Instr(Mnemonic::St, AOperand::Named(local_name(pnames[j as int], callee)))]
                =~= h1.code.push(ACmd::Instr(Mnemonic::St, AOperand::Named(local_name(pnames[j as int], callee)))));
        }
    }
}

/// The code for a call `f(a0, a1, ...)` of a function `f` with parameters
/// `p0, p1, ...` computes the arguments from the left, storing the value of
/// each in `f`'s cell for the parameter of the same position (see
/// `args_done`), then calls `f` and loads its return cell into the
/// accumulator.
pub proof fn lemma_call_code(env: Env, name: Seq<char>, args: Seq<AExpr>, func: Seq<char>, depth: nat, g: Gen)
    requires
        name != "out"@,
        name != "in"@,
        gen_expr(env, AExpr::Call(name, args), func, depth, g) is Some,
    ensures
        ({
            let res = gen_expr(env, AExpr::Call(name, args), func, depth, g)->0;
            let pnames = match table_get(env.params, name) {
                Some(ps) => ps,
                None => Seq::empty(),
            };
            let done = args_done(env, args, pnames, name, func, depth, g, args.len());
            &&& done is Some
            &&& res.code == done->0.code + seq![ACmd::Instr(Mnemonic::Call, AOperand::Named(name)),
                ACmd::Instr(Mnemonic::Ld, AOperand::Named(ret_name(name)))]
            &&& res.label == done->0.label
        }),
{
    let pnames = match table_get(env.params, name) {
        Some(ps) => ps,
        None => Seq::empty(),
    };
    let h = gen_args(env, args, 0, pnames, name, func, depth, g)->0;
    lemma_args_from_left(env, args, pnames, name, func, depth, g, h, args.len());
    assert(args.subrange(args.len() as int, args.len() as int) =~= Seq::<AExpr>::empty());
}


/// Calls and returns use the stack in step: the first step of `CALL` copies
/// the PC (already past the `CALL`) into the data register, points the
/// address register at the stack pointer and moves the stack pointer up one;
/// its second writes the data register to memory; its third jumps to the
/// operand. `RET` moves the stack pointer down one, reads the word it points
/// at, and jumps to it; so a `RET` with the stack pointer that a `CALL` left
/// reads the very cell that the `CALL` wrote, and leaves the stack pointer as
/// it was before the `CALL`.
pub proof fn lemma_call_return_rows(p: Processor, q: Processor, mode: u32)
    requires
        mode == MODE_DIRECT || mode == MODE_IMM,
    ensures
        ({
            let c = execute_row(OP_CALL, mode);
            let r = execute_row(OP_RET, mode);
            let p1 = micro_step(p, c[0]);
            &&& c.len() == 3 && r.len() == 3
            &&& p1.dr == p.pc as i32 && p1.ar == p.sp
            &&& c[1] & DR_TO_MEM != 0 && c[2] & DONE != 0
            &&& micro_step(q, c[2]).pc == sign_extend_25(operand_of(q.cr)) as u32
            &&& r[1] & MEM_TO_DR != 0 && r[2] & DONE != 0
            &&& micro_step(q, r[2]).pc == q.dr as u32
            &&& q.sp == p1.sp ==> micro_step(q, r[0]).sp == p.sp && micro_step(micro_step(q, r[0]), r[1]).ar == p1.ar
        }),
{
    let c0 = PC_TO_DR | SP_INCR | SP_TO_AR;
    let c1 = DR_TO_MEM;
    let c2 = ALU_PASS | IMM_TO_DATA_BUS | ALU_TO_PC | DONE;
    let r0 = SP_DECR;
    let r1 = SP_TO_AR | MEM_TO_DR;
    let r2 = DR_TO_PC | DONE;
    assert(execute_row(OP_CALL, mode) == seq![c0, c1, c2]);
    assert(execute_row(OP_RET, mode) == seq![r0, r1, r2]);
    assert({
        &&& c0 & PC_TO_DR != 0 && c0 & SP_TO_DR == 0 && c0 & SP_TO_AR != 0 && c0 & SP_INCR != 0 && c0 & SP_DECR == 0
        &&& c1 & DR_TO_MEM != 0
        &&& (c2 >> 25u32) & 0xFu32 == 0 && (c2 >> 22u32) & 0x7u32 == 0 && c2 & ALU_TO_PC != 0 && c2 & IMM_TO_DATA_BUS != 0
        &&& c2 & DR_TO_DATA_BUS == 0 && c2 & ZERO_TO_DATA_BUS == 0 && c2 & DR_TO_PC == 0 && c2 & PC_INCR == 0
        &&& c2 & DONE != 0 && c2 & ALU_TO_AC == 0
        &&& r0 & SP_DECR != 0 && r0 & SP_INCR == 0
        &&& r1 & SP_TO_AR != 0 && r1 & MEM_TO_DR != 0 && r1 & SP_INCR == 0 && r1 & SP_DECR == 0
        &&& r2 & DR_TO_PC != 0 && r2 & PC_INCR == 0 && r2 & ALU_TO_PC == 0 && r2 & DONE != 0
        &&& r2 & AC_TO_DR == 0 && r2 & PC_TO_DR == 0 && r2 & SP_TO_DR == 0
    }) by (bit_vector)
        requires
            c0 == PC_TO_DR | SP_INCR | SP_TO_AR,
            c1 == DR_TO_MEM,
            c2 == ALU_PASS | IMM_TO_DATA_BUS | ALU_TO_PC | DONE,
            r0 == SP_DECR,
            r1 == SP_TO_AR | MEM_TO_DR,
            r2 == DR_TO_PC | DONE,
    ;
    let up = vstd::wrapping::u32_specs::wrapping_add(p.sp, 1);
    assert(vstd::wrapping::u32_specs::wrapping_sub(up, 1) == p.sp);
}

} // verus!
