//! Assembly commands: data words, labels and instructions, with their text and
//! their binary encoding.
use vstd::prelude::*;
use crate::text::{int_text, hex_text, push_str, push_int, push_hex};
use crate::isa::{encode, encode_instr};

verus! {

#[derive(Clone, Copy, PartialEq, Eq, Structural)]
pub enum Mnemonic {
    Ld,
    Ldi,
    St,
    Sti,
    Add,
    Sub,
    Mul,
    Div,
    Mod,
    Cmp,
    Neg,
    Not,
    And,
    Or,
    Xor,
    Jmp,
    Jzs,
    Jzc,
    Jns,
    Jnc,
    Call,
    Ret,
    Halt,
}

pub enum Operand {
    Named(String),
    Immediate(i32),
    Addr(u32),
    NoOperand,
}

pub enum Command {
    Word(Vec<i32>),
    Label(String),
    Instr(Mnemonic, Operand),
}

/// An operand as plain values.
pub enum AOperand {
    Named(Seq<char>),
    Immediate(i32),
    Addr(u32),
    NoOperand,
}

/// A command as plain values.
pub enum ACmd {
    Word(Seq<i32>),
    Label(Seq<char>),
    Instr(Mnemonic, AOperand),
}

impl Operand {
    pub open spec fn view(&self) -> AOperand {
        match self {
            Operand::Named(n) => AOperand::Named(n@),
            Operand::Immediate(v) => AOperand::Immediate(*v),
            Operand::Addr(a) => AOperand::Addr(*a),
            Operand::NoOperand => AOperand::NoOperand,
        }
    }
}

impl Command {
    pub open spec fn view(&self) -> ACmd {
        match self {
            Command::Word(v) => ACmd::Word(v@),
            Command::Label(n) => ACmd::Label(n@),
            Command::Instr(m, o) => ACmd::Instr(*m, o@),
        }
    }
}

/// The models of a sequence of commands.
pub open spec fn cmds_view(s: Seq<Command>) -> Seq<ACmd> {
    Seq::new(s.len(), |i: int| s[i]@)
}

/// An operand's text: a name, `#value`, or `0x` and the address in hex.
pub open spec fn operand_text(o: AOperand) -> Seq<char> {
    match o {
        AOperand::Named(n) => n,
        AOperand::Immediate(v) => "#"@ + int_text(v as int),
        AOperand::Addr(a) => "0x"@ + hex_text(a as nat),
        AOperand::NoOperand => Seq::empty(),
    }
}

/// The mnemonic of an instruction in assembly text.
pub open spec fn mnemonic_name(m: Mnemonic) -> Seq<char> {
    match m {
        Mnemonic::Ld => "LD"@,
        Mnemonic::Ldi => "LD"@,
        Mnemonic::St => "ST"@,
        Mnemonic::Sti => "ST"@,
        Mnemonic::Add => "ADD"@,
        Mnemonic::Sub => "SUB"@,
        Mnemonic::Mul => "MUL"@,
        Mnemonic::Div => "DIV"@,
        Mnemonic::Mod => "MOD"@,
        Mnemonic::Cmp => "CMP"@,
        Mnemonic::Neg => "NEG"@,
        Mnemonic::Not => "NOT"@,
        Mnemonic::And => "AND"@,
        Mnemonic::Or => "OR"@,
        Mnemonic::Xor => "XOR"@,
        Mnemonic::Jmp => "JMP"@,
        Mnemonic::Jzs => "JZS"@,
        Mnemonic::Jzc => "JZC"@,
        Mnemonic::Jns => "JNS"@,
        Mnemonic::Jnc => "JNC"@,
        Mnemonic::Call => "CALL"@,
        Mnemonic::Ret => "RET"@,
        Mnemonic::Halt => "HALT"@,
    }
}

fn mnemonic_str(m: Mnemonic) -> (s: &'static str)
    ensures
        s@ == mnemonic_name(m),
{
    match m {
        Mnemonic::Ld => "LD",
        Mnemonic::Ldi => "LD",
        Mnemonic::St => "ST",
        Mnemonic::Sti => "ST",
        Mnemonic::Add => "ADD",
        Mnemonic::Sub => "SUB",
        Mnemonic::Mul => "MUL",
        Mnemonic::Div => "DIV",
        Mnemonic::Mod => "MOD",
        Mnemonic::Cmp => "CMP",
        Mnemonic::Neg => "NEG",
        Mnemonic::Not => "NOT",
        Mnemonic::And => "AND",
        Mnemonic::Or => "OR",
        Mnemonic::Xor => "XOR",
        Mnemonic::Jmp => "JMP",
        Mnemonic::Jzs => "JZS",
        Mnemonic::Jzc => "JZC",
        Mnemonic::Jns => "JNS",
        Mnemonic::Jnc => "JNC",
        Mnemonic::Call => "CALL",
        Mnemonic::Ret => "RET",
        Mnemonic::Halt => "HALT",
    }
}

/// Instructions that take no operand.
pub open spec fn takes_no_operand(m: Mnemonic) -> bool {
    m == Mnemonic::Neg || m == Mnemonic::Not || m == Mnemonic::Ret || m == Mnemonic::Halt
}

/// The line of an instruction: a tab, the mnemonic, and the operand (in
/// brackets for the indirect load and store).
pub open spec fn instr_text(m: Mnemonic, o: AOperand) -> Seq<char> {
    if takes_no_operand(m) {
        "\t"@ + mnemonic_name(m) + "\n"@
    } else if m == Mnemonic::Ldi || m == Mnemonic::Sti {
        "\t"@ + mnemonic_name(m) + " ["@ + operand_text(o) + "]\n"@
    } else {
        "\t"@ + mnemonic_name(m) + " "@ + operand_text(o) + "\n"@
    }
}

/// Appends an operand's text.
pub fn push_operand(out: &mut String, o: &Operand)
    ensures
        final(out)@ == old(out)@ + operand_text(o@),
{
    match o {
        Operand::Named(n) => push_str(out, n.as_str()),
        Operand::Immediate(v) => {
            push_str(out, "#");
            push_int(out, *v as i64);
        },
        Operand::Addr(a) => {
            push_str(out, "0x");
            push_hex(out, *a as u64);
        },
        Operand::NoOperand => {},
    }
    assert(final(out)@ =~= old(out)@ + operand_text(o@));
}

/// Appends the line of an instruction.
pub fn emit_text_command(out: &mut String, m: Mnemonic, o: &Operand)
    ensures
        final(out)@ == old(out)@ + instr_text(m, o@),
{
    push_str(out, "\t");
    push_str(out, mnemonic_str(m));
    match m {
        Mnemonic::Neg | Mnemonic::Not | Mnemonic::Ret | Mnemonic::Halt => {
            push_str(out, "\n");
        },
        Mnemonic::Ldi | Mnemonic::Sti => {
            push_str(out, " [");
            push_operand(out, o);
            push_str(out, "]\n");
        },
        _ => {
            push_str(out, " ");
            push_operand(out, o);
            push_str(out, "\n");
        },
    }
    assert(final(out)@ =~= old(out)@ + instr_text(m, o@));
}

/// The address of a name: its first entry in the table, or 0.
pub open spec fn table_addr(table: Seq<(Seq<char>, u32)>, name: Seq<char>) -> u32
    decreases table.len(),
{
    if table.len() == 0 {
        0
    } else if table[0].0 == name {
        table[0].1
    } else {
        table_addr(table.drop_first(), name)
    }
}

/// The operand field that an operand encodes to: a name's address, an
/// immediate's two's-complement bits, or an address.
pub open spec fn operand_value(o: AOperand, table: Seq<(Seq<char>, u32)>) -> u32 {
    match o {
        AOperand::Named(n) => table_addr(table, n),
        AOperand::Immediate(v) => v as u32,
        AOperand::Addr(a) => a,
        AOperand::NoOperand => 0,
    }
}

/// The opcode of an instruction.
pub open spec fn opcode_number(m: Mnemonic) -> u32 {
    match m {
        Mnemonic::Ld => 0x01,
        Mnemonic::Ldi => 0x01,
        Mnemonic::St => 0x02,
        Mnemonic::Sti => 0x02,
        Mnemonic::Add => 0x03,
        Mnemonic::Sub => 0x04,
        Mnemonic::Mul => 0x05,
        Mnemonic::Div => 0x06,
        Mnemonic::Mod => 0x07,
        Mnemonic::Cmp => 0x08,
        Mnemonic::Neg => 0x09,
        Mnemonic::Not => 0x0A,
        Mnemonic::And => 0x0B,
        Mnemonic::Or => 0x0C,
        Mnemonic::Xor => 0x0D,
        Mnemonic::Jmp => 0x0E,
        Mnemonic::Jzs => 0x0F,
        Mnemonic::Jzc => 0x10,
        Mnemonic::Jns => 0x11,
        Mnemonic::Jnc => 0x12,
        Mnemonic::Call => 0x13,
        Mnemonic::Ret => 0x14,
        Mnemonic::Halt => 0x15,
    }
}

/// Instructions whose operand may be an immediate value.
pub open spec fn allows_immediate(m: Mnemonic) -> bool {
    m == Mnemonic::Ld || m == Mnemonic::Add || m == Mnemonic::Sub || m == Mnemonic::Mul || m == Mnemonic::Div
        || m == Mnemonic::Mod || m == Mnemonic::Cmp || m == Mnemonic::And || m == Mnemonic::Or || m == Mnemonic::Xor
}

/// The addressing mode of an instruction: none for those without operand,
/// indirect for the bracketed load and store, immediate where an immediate
/// value is given and allowed, direct otherwise.
pub open spec fn mode_number(m: Mnemonic, o: AOperand) -> u32 {
    if takes_no_operand(m) {
        3
    } else if m == Mnemonic::Ldi || m == Mnemonic::Sti {
        2
    } else if allows_immediate(m) && o is Immediate {
        1
    } else {
        0
    }
}

/// The instruction word of an instruction.
pub open spec fn instr_word(m: Mnemonic, o: AOperand, table: Seq<(Seq<char>, u32)>) -> u32 {
    let operand = if takes_no_operand(m) { 0 } else { operand_value(o, table) };
    encode(opcode_number(m), mode_number(m, o), operand)
}

/// The four bytes of a word, lowest first.
pub open spec fn le_bytes(x: u32) -> Seq<u8> {
    seq![(x & 0xFFu32) as u8, ((x >> 8u32) & 0xFFu32) as u8, ((x >> 16u32) & 0xFFu32) as u8, ((x >> 24u32) & 0xFFu32) as u8]
}

/// Appends the four bytes of a word, lowest first.
pub fn push_le_bytes(out: &mut Vec<u8>, x: u32)
    ensures
        final(out)@ == old(out)@ + le_bytes(x),
{
    out.push((x & 0xFFu32) as u8);
    out.push(((x >> 8u32) & 0xFFu32) as u8);
    out.push(((x >> 16u32) & 0xFFu32) as u8);
    out.push(((x >> 24u32) & 0xFFu32) as u8);
    assert(final(out)@ =~= old(out)@ + le_bytes(x));
}

/// The address of a name in a table: its first entry, or 0.
pub fn resolve_addr_in(table: &Vec<(String, u32)>, name: &String) -> (a: u32)
    ensures
        a == table_addr(table_view(table@), name@),
{
    let mut i: usize = 0;
    assert(table_view(table@).skip(0) =~= table_view(table@));
    while i < table.len()
        invariant
            i <= table@.len(),
            table_addr(table_view(table@), name@) == table_addr(table_view(table@).skip(i as int), name@),
        decreases table@.len() - i,
    {
        let ghost rest = table_view(table@).skip(i as int);
        assert(rest[0] == (table@[i as int].0@, table@[i as int].1));
        if table[i].0 == *name {
            return table[i].1;
        }
        assert(rest.drop_first() =~= table_view(table@).skip(i + 1));
        i = i + 1;
    }
    0
}

/// A table of names and addresses as plain values.
pub open spec fn table_view(t: Seq<(String, u32)>) -> Seq<(Seq<char>, u32)> {
    Seq::new(t.len(), |i: int| (t[i].0@, t[i].1))
}

/// The operand field of an operand.
pub fn resolve_addr(o: &Operand, table: &Vec<(String, u32)>) -> (a: u32)
    ensures
        a == operand_value(o@, table_view(table@)),
{
    match o {
        Operand::Named(n) => resolve_addr_in(table, n),
        Operand::Immediate(v) => *v as u32,
        Operand::Addr(a) => *a,
        Operand::NoOperand => 0,
    }
}

/// Appends the instruction word of an instruction.
pub fn emit_binary_command(out: &mut Vec<u8>, m: Mnemonic, o: &Operand, table: &Vec<(String, u32)>)
    ensures
        final(out)@ == old(out)@ + le_bytes(instr_word(m, o@, table_view(table@))),
{
    let opcode: u32 = match m {
        Mnemonic::Ld => 0x01,
        Mnemonic::Ldi => 0x01,
        Mnemonic::St => 0x02,
        Mnemonic::Sti => 0x02,
        Mnemonic::Add => 0x03,
        Mnemonic::Sub => 0x04,
        Mnemonic::Mul => 0x05,
        Mnemonic::Div => 0x06,
        Mnemonic::Mod => 0x07,
        Mnemonic::Cmp => 0x08,
        Mnemonic::Neg => 0x09,
        Mnemonic::Not => 0x0A,
        Mnemonic::And => 0x0B,
        Mnemonic::Or => 0x0C,
        Mnemonic::Xor => 0x0D,
        Mnemonic::Jmp => 0x0E,
        Mnemonic::Jzs => 0x0F,
        Mnemonic::Jzc => 0x10,
        Mnemonic::Jns => 0x11,
        Mnemonic::Jnc => 0x12,
        Mnemonic::Call => 0x13,
        Mnemonic::Ret => 0x14,
        Mnemonic::Halt => 0x15,
    };
    let (mode, operand): (u32, u32) = match m {
        Mnemonic::Neg | Mnemonic::Not | Mnemonic::Ret | Mnemonic::Halt => (3, 0),
        Mnemonic::Ldi | Mnemonic::Sti => (2, resolve_addr(o, table)),
        Mnemonic::Ld | Mnemonic::Add | Mnemonic::Sub | Mnemonic::Mul | Mnemonic::Div | Mnemonic::Mod
        | Mnemonic::Cmp | Mnemonic::And | Mnemonic::Or | Mnemonic::Xor => match o {
            Operand::Immediate(v) => (1, *v as u32),
            _ => (0, resolve_addr(o, table)),
        },
        _ => (0, resolve_addr(o, table)),
    };
    let instr = encode_instr(opcode, mode, operand);
    push_le_bytes(out, instr);
}

} // verus!
