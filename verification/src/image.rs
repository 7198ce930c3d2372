//! The binary image that the assembler emits, seen as words: what the loader
//! reads back from it, what each instruction word decodes to, and where each
//! label lands.
use vstd::prelude::*;
use crate::asm_cmd::{Mnemonic, AOperand, ACmd, instr_word, le_bytes, opcode_number, mode_number, operand_value,
    takes_no_operand};
use crate::codegen::{AsmState, emit_program, emit_data, label_entries, cmd_size, words_bytes, code_bytes,
    compile_model};
use crate::isa::{opcode_of, mode_of, operand_of, lemma_decode_encode};
use crate::simulator::{words_of, word_at, word_count};
use crate::assembler::fresh_asm;
use crate::ast::AProgram;
use crate::codegen::{main_index, lemma_main_first, collect_program, gen_program, Env, Gen};

verus! {

/// The values of the data commands, in order.
pub open spec fn data_values(data: Seq<ACmd>) -> Seq<i32>
    decreases data.len(),
{
    if data.len() == 0 {
        Seq::empty()
    } else {
        let first = match data[0] {
            ACmd::Word(vs) => vs,
            _ => Seq::empty(),
        };
        first + data_values(data.drop_first())
    }
}

/// The words of the code: one instruction word per instruction (names
/// resolved in `table`), the values of data commands, nothing for labels.
pub open spec fn code_words(cmds: Seq<ACmd>, table: Seq<(Seq<char>, u32)>) -> Seq<i32>
    decreases cmds.len(),
{
    if cmds.len() == 0 {
        Seq::empty()
    } else {
        let first = match cmds[0] {
            ACmd::Label(_) => Seq::empty(),
            ACmd::Instr(m, o) => seq![instr_word(m, o, table) as i32],
            ACmd::Word(vs) => vs,
        };
        first + code_words(cmds.drop_first(), table)
    }
}

/// How many cells commands occupy.
pub open spec fn cells(cmds: Seq<ACmd>) -> nat
    decreases cmds.len(),
{
    if cmds.len() == 0 {
        0
    } else {
        cmd_size(cmds[0]) + cells(cmds.drop_first())
    }
}

/// The four bytes of a word give it back.
proof fn lemma_le_bytes_word(v: i32)
    ensures
        ({
            let b = le_bytes(v as u32);
            ((b[0] as u32) | ((b[1] as u32) << 8u32) | ((b[2] as u32) << 16u32) | ((b[3] as u32) << 24u32)) as i32 == v
        }),
{
    let x = v as u32;
    let b0 = (x & 0xFFu32) as u8;
    let b1 = ((x >> 8u32) & 0xFFu32) as u8;
    let b2 = ((x >> 16u32) & 0xFFu32) as u8;
    let b3 = ((x >> 24u32) & 0xFFu32) as u8;
    assert(((b0 as u32) | ((b1 as u32) << 8u32) | ((b2 as u32) << 16u32) | ((b3 as u32) << 24u32)) == x) by (bit_vector)
        requires
            b0 == (x & 0xFFu32) as u8,
            b1 == ((x >> 8u32) & 0xFFu32) as u8,
            b2 == ((x >> 16u32) & 0xFFu32) as u8,
            b3 == ((x >> 24u32) & 0xFFu32) as u8,
    ;
    assert((x as i32) == v) by (bit_vector)
        requires
            x == v as u32,
    ;
}

/// The bytes of words: four per word, those of word `k` at `4k`.
proof fn lemma_words_bytes_layout(ws: Seq<i32>)
    ensures
        words_bytes(ws).len() == 4 * ws.len(),
        forall|k: int, j: int|
            0 <= k < ws.len() && 0 <= j < 4 ==> #[trigger] words_bytes(ws)[4 * k + j] == le_bytes(ws[k] as u32)[j],
    decreases ws.len(),
{
    if ws.len() > 0 {
        let rest = ws.drop_first();
        lemma_words_bytes_layout(rest);
        assert forall|k: int, j: int| 0 <= k < ws.len() && 0 <= j < 4 implies #[trigger] words_bytes(ws)[4 * k + j]
            == le_bytes(ws[k] as u32)[j] by {
            if k > 0 {
                assert(words_bytes(rest)[4 * (k - 1) + j] == le_bytes(rest[k - 1] as u32)[j]);
                assert(4 * k + j == 4 + (4 * (k - 1) + j));
            }
        }
    }
}

/// What the assembler writes as four little-endian bytes per word, the
/// loader reads back as the same words.
pub proof fn lemma_load_reads_back(ws: Seq<i32>)
    ensures
        words_of(words_bytes(ws)) == ws,
{
    lemma_words_bytes_layout(ws);
    let b = words_bytes(ws);
    assert(word_count(b) == ws.len());
    assert forall|k: int| 0 <= k < ws.len() implies #[trigger] word_at(b, k) == ws[k] by {
        assert(b[4 * k + 0] == le_bytes(ws[k] as u32)[0]);
        assert(b[4 * k + 1] == le_bytes(ws[k] as u32)[1]);
        assert(b[4 * k + 2] == le_bytes(ws[k] as u32)[2]);
        assert(b[4 * k + 3] == le_bytes(ws[k] as u32)[3]);
        lemma_le_bytes_word(ws[k]);
    }
    assert(words_of(b) =~= ws);
}

/// The bytes of a run of words are four per word.
pub proof fn lemma_words_bytes_len(ws: Seq<i32>)
    ensures
        words_bytes(ws).len() == 4 * ws.len(),
    decreases ws.len(),
{
    if ws.len() > 0 {
        lemma_words_bytes_len(ws.drop_first());
    }
}

/// The bytes of two runs of words are the bytes of each, in order.
pub proof fn lemma_words_bytes_concat(a: Seq<i32>, b: Seq<i32>)
    ensures
        words_bytes(a + b) == words_bytes(a) + words_bytes(b),
    decreases a.len(),
{
    if a.len() == 0 {
        assert(a + b =~= b);
        assert(Seq::<u8>::empty() + words_bytes(b) =~= words_bytes(b));
    } else {
        assert((a + b).drop_first() =~= a.drop_first() + b);
        lemma_words_bytes_concat(a.drop_first(), b);
        assert(words_bytes(a + b) =~= words_bytes(a) + words_bytes(b));
    }
}

/// The four bytes of an instruction word are the bytes of that word.
proof fn lemma_le_bytes_single(w: u32)
    ensures
        le_bytes(w) == words_bytes(seq![w as i32]),
{
    let x = w as i32;
    let one = seq![x];
    assert((x as u32) == w) by (bit_vector)
        requires
            x == w as i32,
    ;
    assert(one.drop_first() =~= Seq::<i32>::empty());
    assert(words_bytes(one.drop_first()) == Seq::<u8>::empty());
    assert(one[0] == x);
    assert(words_bytes(one) == le_bytes(one[0] as u32) + words_bytes(one.drop_first()));
    assert(le_bytes(w) + Seq::<u8>::empty() =~= le_bytes(w));
}

/// The code's bytes are the bytes of its words.
pub proof fn lemma_code_bytes_words(cmds: Seq<ACmd>, table: Seq<(Seq<char>, u32)>)
    ensures
        code_bytes(cmds, table) == words_bytes(code_words(cmds, table)),
    decreases cmds.len(),
{
    if cmds.len() > 0 {
        lemma_code_bytes_words(cmds.drop_first(), table);
        let rest = code_words(cmds.drop_first(), table);
        match cmds[0] {
            ACmd::Label(_) => {
                assert(Seq::<i32>::empty() + rest =~= rest);
                assert(Seq::<u8>::empty() + words_bytes(rest) =~= words_bytes(rest));
            },
            ACmd::Instr(m, o) => {
                let w = instr_word(m, o, table);
                lemma_le_bytes_single(w);
                lemma_words_bytes_concat(seq![w as i32], rest);
            },
            ACmd::Word(vs) => {
                lemma_words_bytes_concat(vs, rest);
            },
        }
    }
}

/// The data section's bytes are the bytes of the data values.
pub proof fn lemma_data_bytes_words(symbols: Seq<(Seq<char>, u32)>, data: Seq<ACmd>, addr: u32)
    requires
        emit_data(symbols, data, addr) is Some,
    ensures
        match emit_data(symbols, data, addr) {
            Some((_, b)) => b == words_bytes(data_values(data)),
            None => true,
        },
    decreases data.len(),
{
    if data.len() > 0 {
        let rest = data_values(data.drop_first());
        match data[0] {
            ACmd::Word(vs) => {
                lemma_data_bytes_words(symbols, data.drop_first(), (addr + (vs.len() as u32)) as u32);
                lemma_words_bytes_concat(vs, rest);
            },
            _ => {
                lemma_data_bytes_words(symbols, data.drop_first(), addr);
                assert(Seq::<i32>::empty() + rest =~= rest);
            },
        }
    } else {
        assert(data_values(data) =~= Seq::<i32>::empty());
    }
}

/// Emission appends the bytes of the data values followed by the code words.
pub proof fn lemma_emitted_words(s: AsmState)
    requires
        emit_program(s) is Some,
    ensures
        label_entries(s.code, s.data_addr as nat) is Some,
        emit_program(s)->0.binary == s.binary + words_bytes(
            data_values(s.data) + code_words(s.code, s.symbols + label_entries(s.code, s.data_addr as nat)->0),
        ),
{
    let ents = label_entries(s.code, s.data_addr as nat)->0;
    let table = s.symbols + ents;
    lemma_data_bytes_words(s.symbols, s.data, 0);
    lemma_code_bytes_words(s.code, table);
    lemma_words_bytes_concat(data_values(s.data), code_words(s.code, table));
    assert(emit_program(s)->0.binary =~= s.binary + words_bytes(data_values(s.data) + code_words(s.code, table)));
}

/// A compiled program, loaded by the simulator, is its data values followed
/// by its code words.
pub proof fn lemma_compiled_image(p: AProgram)
    requires
        compile_model(fresh_asm(), p) is Some,
    ensures
        ({
            let s = compile_model(fresh_asm(), p)->0;
            &&& label_entries(s.code, s.data_addr as nat) is Some
            &&& s.binary.len() % 4 == 0
            &&& words_of(s.binary) == data_values(s.data) + code_words(
                s.code,
                s.symbols + label_entries(s.code, s.data_addr as nat)->0,
            )
        }),
{
    let s = compile_model(fresh_asm(), p)->0;
    let c = crate::codegen::collect_program(fresh_asm(), p)->0;
    let env = crate::codegen::Env { symbols: c.symbols, params: c.params };
    let g = crate::codegen::gen_program(env, p.functions, crate::codegen::Gen { code: Seq::empty(), label: 0 })->0;
    let pre = AsmState {
        data: c.data,
        code: g.code,
        symbols: c.symbols,
        params: c.params,
        data_addr: c.next,
        label: g.label,
        text: Seq::empty(),
        binary: Seq::empty(),
    };
    assert(emit_program(pre) == Some(s));
    lemma_emitted_words(pre);
    let words = data_values(s.data) + code_words(s.code, s.symbols + label_entries(s.code, s.data_addr as nat)->0);
    assert(Seq::<u8>::empty() + words_bytes(words) =~= words_bytes(words));
    lemma_load_reads_back(words);
    lemma_words_bytes_len(words);
}

/// A compiled program with a `main` has `main`'s label first in its code, at
/// the address right after the data: the address where the machine starts.
pub proof fn lemma_compiled_entry(p: AProgram)
    requires
        compile_model(fresh_asm(), p) is Some,
        main_index(p.functions) is Some,
    ensures
        ({
            let s = compile_model(fresh_asm(), p)->0;
            let main_name = p.functions[main_index(p.functions)->0 as int].name;
            &&& s.code.len() > 0
            &&& s.code[0] == ACmd::Label(main_name)
            &&& label_entries(s.code, s.data_addr as nat) is Some
            &&& label_entries(s.code, s.data_addr as nat)->0.len() > 0
            &&& label_entries(s.code, s.data_addr as nat)->0[0] == (main_name, s.data_addr)
        }),
{
    let s = compile_model(fresh_asm(), p)->0;
    let c = collect_program(fresh_asm(), p)->0;
    let env = Env { symbols: c.symbols, params: c.params };
    lemma_main_first(env, p.functions, 0);
    let g = gen_program(env, p.functions, Gen { code: Seq::empty(), label: 0 })->0;
    assert(s.code == g.code);
    lemma_emitted_words(AsmState {
        data: c.data,
        code: g.code,
        symbols: c.symbols,
        params: c.params,
        data_addr: c.next,
        label: g.label,
        text: Seq::empty(),
        binary: Seq::empty(),
    });
}

/// An instruction word decodes to the instruction's opcode, its addressing
/// mode, and the low 25 bits of its operand (0 for an instruction without
/// one).
pub proof fn lemma_instruction_fields(m: Mnemonic, o: AOperand, table: Seq<(Seq<char>, u32)>)
    ensures
        opcode_of(instr_word(m, o, table)) == opcode_number(m),
        mode_of(instr_word(m, o, table)) == mode_number(m, o),
        operand_of(instr_word(m, o, table)) == (if takes_no_operand(m) { 0 } else { operand_value(o, table) & 0x1FFFFFFu32 }),
{
    let operand = if takes_no_operand(m) { 0 } else { operand_value(o, table) };
    lemma_decode_encode(opcode_number(m), mode_number(m, o), operand);
    assert(0u32 & 0x1FFFFFFu32 == 0u32) by (bit_vector);
}

/// The cells of the first `i + 1` commands are those of the first command and
/// of the `i` after it.
proof fn lemma_cells_prefix(cmds: Seq<ACmd>, i: int)
    requires
        0 <= i < cmds.len(),
    ensures
        cells(cmds.subrange(0, i + 1)) == cmd_size(cmds[0]) + cells(cmds.drop_first().subrange(0, i)),
{
    assert(cmds.subrange(0, i + 1).drop_first() =~= cmds.drop_first().subrange(0, i));
}

/// Each label's address is where the code starts plus the cells of the
/// commands before the label: the address of the instruction that follows
/// it.
pub proof fn lemma_label_addresses(cmds: Seq<ACmd>, start: nat)
    requires
        label_entries(cmds, start) is Some,
    ensures
        ({
            let ents = label_entries(cmds, start)->0;
            forall|k: int| #![trigger ents[k]] 0 <= k < ents.len() ==> exists|i: int| #![trigger cmds[i]]
                0 <= i < cmds.len() && cmds[i] == ACmd::Label(ents[k].0) && ents[k].1 == start + cells(cmds.subrange(0, i))
        }),
    decreases cmds.len(),
{
    if cmds.len() > 0 {
        let next = start + cmd_size(cmds[0]);
        let rest = cmds.drop_first();
        lemma_label_addresses(rest, next);
        let ents = label_entries(cmds, start)->0;
        let rents = label_entries(rest, next)->0;
        assert forall|k: int| #![trigger ents[k]] 0 <= k < ents.len() implies exists|i: int| #![trigger cmds[i]]
            0 <= i < cmds.len() && cmds[i] == ACmd::Label(ents[k].0) && ents[k].1 == start + cells(cmds.subrange(0, i)) by {
            match cmds[0] {
                ACmd::Label(n) => {
                    if k == 0 {
                        assert(cmds.subrange(0, 0) =~= Seq::<ACmd>::empty());
                        assert(cmds[0] == ACmd::Label(ents[k].0));
                    } else {
                        assert(ents[k] == rents[k - 1]);
                        let i2 = choose|i: int| #![trigger rest[i]]
                            0 <= i < rest.len() && rest[i] == ACmd::Label(rents[k - 1].0) && rents[k - 1].1 == next + cells(rest.subrange(0, i));
                        lemma_cells_prefix(cmds, i2);
                        assert(cmds[i2 + 1] == rest[i2]);
                    }
                },
                _ => {
                    assert(ents[k] == rents[k]);
                    let i2 = choose|i: int| #![trigger rest[i]]
                        0 <= i < rest.len() && rest[i] == ACmd::Label(rents[k].0) && rents[k].1 == next + cells(rest.subrange(0, i));
                    lemma_cells_prefix(cmds, i2);
                    assert(cmds[i2 + 1] == rest[i2]);
                },
            }
        }
    }
}

/// The cells of commands are the words they put in the binary.
pub proof fn lemma_cells_are_words(cmds: Seq<ACmd>, table: Seq<(Seq<char>, u32)>)
    ensures
        cells(cmds) == code_words(cmds, table).len(),
    decreases cmds.len(),
{
    if cmds.len() > 0 {
        lemma_cells_are_words(cmds.drop_first(), table);
    }
}

} // verus!
