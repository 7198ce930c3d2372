//! The instruction word of the accumulator machine: five bits of opcode, two bits
//! of addressing mode and a 25-bit operand field.
use vstd::prelude::*;
use crate::text::{hex_text, int_text, push_str, push_hex, push_int};

verus! {

pub const OP_LD: u32 = 0x01;
pub const OP_ST: u32 = 0x02;
pub const OP_ADD: u32 = 0x03;
pub const OP_SUB: u32 = 0x04;
pub const OP_MUL: u32 = 0x05;
pub const OP_DIV: u32 = 0x06;
pub const OP_MOD: u32 = 0x07;
pub const OP_CMP: u32 = 0x08;
pub const OP_NEG: u32 = 0x09;
pub const OP_NOT: u32 = 0x0A;
pub const OP_AND: u32 = 0x0B;
pub const OP_OR: u32 = 0x0C;
pub const OP_XOR: u32 = 0x0D;
pub const OP_JMP: u32 = 0x0E;
pub const OP_JZS: u32 = 0x0F;
pub const OP_JZC: u32 = 0x10;
pub const OP_JNS: u32 = 0x11;
pub const OP_JNC: u32 = 0x12;
pub const OP_CALL: u32 = 0x13;
pub const OP_RET: u32 = 0x14;
pub const OP_HALT: u32 = 0x15;

pub const MODE_DIRECT: u32 = 0;
pub const MODE_IMM: u32 = 1;
pub const MODE_INDIRECT: u32 = 2;
pub const MODE_NONE: u32 = 3;

/// Mask of the operand field.
pub const OPERAND_MASK: u32 = 0x1FFFFFF;

/// The word that encodes an instruction.
pub open spec fn encode(opcode: u32, mode: u32, operand: u32) -> u32 {
    (opcode << 27u32) | (mode << 25u32) | (operand & 0x1FFFFFFu32)
}

/// The opcode field of an instruction word.
pub open spec fn opcode_of(word: u32) -> u32 {
    (word >> 27u32) & 0x1Fu32
}

/// The mode field of an instruction word.
pub open spec fn mode_of(word: u32) -> u32 {
    (word >> 25u32) & 0x3u32
}

/// The operand field of an instruction word.
pub open spec fn operand_of(word: u32) -> u32 {
    word & 0x1FFFFFFu32
}

/// The 25-bit operand field read as a two's-complement number.
pub open spec fn sign_extend_25(field: u32) -> i32 {
    if field & 0x1000000u32 != 0 {
        (field as int - 0x2000000) as i32
    } else {
        field as i32
    }
}

/// Encoding then decoding an instruction gives back its opcode, its mode and
/// the low 25 bits of its operand.
pub proof fn lemma_decode_encode(opcode: u32, mode: u32, operand: u32)
    requires
        opcode < 32,
        mode < 4,
    ensures
        opcode_of(encode(opcode, mode, operand)) == opcode,
        mode_of(encode(opcode, mode, operand)) == mode,
        operand_of(encode(opcode, mode, operand)) == operand & 0x1FFFFFFu32,
{
    assert(opcode_of(encode(opcode, mode, operand)) == opcode) by (bit_vector)
        requires opcode < 32, mode < 4;
    assert(mode_of(encode(opcode, mode, operand)) == mode) by (bit_vector)
        requires opcode < 32, mode < 4;
    assert(operand_of(encode(opcode, mode, operand)) == operand & 0x1FFFFFFu32) by (bit_vector);
}

/// A value that fits the signed 25-bit operand field survives encoding as an
/// immediate: sign extension of the stored field gives it back.
pub proof fn lemma_immediate_roundtrip(v: i32)
    requires
        -0x1000000 <= v < 0x1000000,
    ensures
        sign_extend_25((v as u32) & 0x1FFFFFFu32) == v,
{
    let f = (v as u32) & 0x1FFFFFFu32;
    if v >= 0 {
        assert((v as u32) & 0x1FFFFFFu32 == v as u32 && ((v as u32) & 0x1FFFFFFu32) & 0x1000000u32 == 0)
            by (bit_vector)
            requires 0 <= v < 0x1000000;
    } else {
        assert(((v as u32) & 0x1FFFFFFu32) & 0x1000000u32 != 0
            && ((v as u32) & 0x1FFFFFFu32) as int - 0x2000000 == v as int) by (bit_vector)
            requires -0x1000000 <= v < 0;
    }
}

/// Builds an instruction word.
pub fn encode_instr(opcode: u32, mode: u32, operand: u32) -> (word: u32)
    requires
        opcode < 32,
        mode < 4,
    ensures
        word == encode(opcode, mode, operand),
{
    (opcode << 27u32) | (mode << 25u32) | (operand & 0x1FFFFFFu32)
}

/// Sign-extends the 25-bit operand field of an instruction word.
pub fn immediate(word: u32) -> (v: i32)
    ensures
        v == sign_extend_25(operand_of(word)),
{
    let field = word & 0x1FFFFFFu32;
    assert(field < 0x2000000) by (bit_vector)
        requires field == word & 0x1FFFFFFu32;
    let v = field as i32;
    if field & 0x1000000u32 != 0 {
        v - 0x2000000
    } else {
        v
    }
}

/// The mnemonic of an opcode, "???" for a code that names no instruction.
pub open spec fn mnemonic_text(opcode: u32) -> Seq<char> {
    if opcode == OP_LD { "LD"@ }
    else if opcode == OP_ST { "ST"@ }
    else if opcode == OP_ADD { "ADD"@ }
    else if opcode == OP_SUB { "SUB"@ }
    else if opcode == OP_MUL { "MUL"@ }
    else if opcode == OP_DIV { "DIV"@ }
    else if opcode == OP_MOD { "MOD"@ }
    else if opcode == OP_CMP { "CMP"@ }
    else if opcode == OP_NEG { "NEG"@ }
    else if opcode == OP_NOT { "NOT"@ }
    else if opcode == OP_AND { "AND"@ }
    else if opcode == OP_OR { "OR"@ }
    else if opcode == OP_XOR { "XOR"@ }
    else if opcode == OP_JMP { "JMP"@ }
    else if opcode == OP_JZS { "JZS"@ }
    else if opcode == OP_JZC { "JZC"@ }
    else if opcode == OP_JNS { "JNS"@ }
    else if opcode == OP_JNC { "JNC"@ }
    else if opcode == OP_CALL { "CALL"@ }
    else if opcode == OP_RET { "RET"@ }
    else if opcode == OP_HALT { "HALT"@ }
    else { "???"@ }
}

/// The mnemonic of an opcode.
pub fn mnemonic(opcode: u32) -> (s: &'static str)
    ensures
        s@ == mnemonic_text(opcode),
{
    if opcode == OP_LD { "LD" }
    else if opcode == OP_ST { "ST" }
    else if opcode == OP_ADD { "ADD" }
    else if opcode == OP_SUB { "SUB" }
    else if opcode == OP_MUL { "MUL" }
    else if opcode == OP_DIV { "DIV" }
    else if opcode == OP_MOD { "MOD" }
    else if opcode == OP_CMP { "CMP" }
    else if opcode == OP_NEG { "NEG" }
    else if opcode == OP_NOT { "NOT" }
    else if opcode == OP_AND { "AND" }
    else if opcode == OP_OR { "OR" }
    else if opcode == OP_XOR { "XOR" }
    else if opcode == OP_JMP { "JMP" }
    else if opcode == OP_JZS { "JZS" }
    else if opcode == OP_JZC { "JZC" }
    else if opcode == OP_JNS { "JNS" }
    else if opcode == OP_JNC { "JNC" }
    else if opcode == OP_CALL { "CALL" }
    else if opcode == OP_RET { "RET" }
    else if opcode == OP_HALT { "HALT" }
    else { "???" }
}

/// The text that `disassemble` gives for an instruction word.
pub open spec fn disassembly_text(word: u32) -> Seq<char> {
    let name = mnemonic_text(opcode_of(word));
    let mode = mode_of(word);
    let operand = operand_of(word);
    if mode == MODE_DIRECT {
        name + " [0x"@ + hex_text(operand as nat) + "]"@
    } else if mode == MODE_IMM {
        name + " #"@ + int_text(sign_extend_25(operand) as int)
    } else if mode == MODE_INDIRECT {
        name + " [[0x"@ + hex_text(operand as nat) + "]]"@
    } else {
        name
    }
}

/// An instruction word with an immediate operand disassembles to its mnemonic,
/// `#` and the immediate's value; one with a direct or indirect address to its
/// mnemonic and the address in hex in one or two pairs of brackets; one
/// without an operand to its mnemonic alone; for every immediate and address
/// that fits the operand field.
pub proof fn lemma_disassembly_forms(op: u32, v: i32, a: u32)
    requires
        1 <= op <= 21,
        -0x1000000 <= v < 0x1000000,
        a < 0x2000000,
    ensures
        mnemonic_text(op) != "???"@,
        disassembly_text(encode(op, MODE_IMM, v as u32)) == mnemonic_text(op) + " #"@ + int_text(v as int),
        disassembly_text(encode(op, MODE_DIRECT, a)) == mnemonic_text(op) + " [0x"@ + hex_text(a as nat) + "]"@,
        disassembly_text(encode(op, MODE_INDIRECT, a)) == mnemonic_text(op) + " [[0x"@ + hex_text(a as nat) + "]]"@,
        disassembly_text(encode(op, MODE_NONE, a)) == mnemonic_text(op),
{
    lemma_decode_encode(op, MODE_NONE, a);
    reveal_strlit("???");
    reveal_strlit("LD");
    lemma_decode_encode(op, MODE_IMM, v as u32);
    lemma_decode_encode(op, MODE_DIRECT, a);
    lemma_decode_encode(op, MODE_INDIRECT, a);
    lemma_immediate_roundtrip(v);
    assert(a & 0x1FFFFFFu32 == a) by (bit_vector)
        requires
            a < 0x2000000,
    ;
    assert(mnemonic_text(op) != "???"@) by {
        reveal_strlit("ST");
        reveal_strlit("ADD");
        reveal_strlit("SUB");
        reveal_strlit("MUL");
        reveal_strlit("DIV");
        reveal_strlit("MOD");
        reveal_strlit("CMP");
        reveal_strlit("NEG");
        reveal_strlit("NOT");
        reveal_strlit("AND");
        reveal_strlit("OR");
        reveal_strlit("XOR");
        reveal_strlit("JMP");
        reveal_strlit("JZS");
        reveal_strlit("JZC");
        reveal_strlit("JNS");
        reveal_strlit("JNC");
        reveal_strlit("CALL");
        reveal_strlit("RET");
        reveal_strlit("HALT");
        assert("???"@[0] == '?');
    }
}

/// Renders an instruction word as assembly text: the mnemonic, then the operand
/// as `[0x..]` (direct), `#n` (immediate, sign-extended) or `[[0x..]]` (indirect).
pub fn disassemble(cr: u32) -> (s: String)
    ensures
        s@ == disassembly_text(cr),
{
    let opcode = (cr >> 27u32) & 0x1Fu32;
    let mode = (cr >> 25u32) & 0x3u32;
    let operand = cr & 0x1FFFFFFu32;
    let name = mnemonic(opcode);
    let mut s = String::new();
    push_str(&mut s, name);
    if mode == MODE_DIRECT {
        push_str(&mut s, " [0x");
        push_hex(&mut s, operand as u64);
        push_str(&mut s, "]");
    } else if mode == MODE_IMM {
        push_str(&mut s, " #");
        let v = immediate(cr);
        push_int(&mut s, v as i64);
    } else if mode == MODE_INDIRECT {
        push_str(&mut s, " [[0x");
        push_hex(&mut s, operand as u64);
        push_str(&mut s, "]]");
    }
    s
}

} // verus!
