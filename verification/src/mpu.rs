//! The microprogrammed control unit: it steps through the ROM, drives the
//! processor and the memory each tick, and writes a trace line per tick.
use vstd::prelude::*;
use crate::text::{join, lemma_join_push, dec_text, hex_text, int_text, pad_left, pad_right, zero_pad, push_str, push_dec, push_int, push_hex, push_padded_left, push_padded_right, push_zero_padded};
pub use crate::isa::disassemble;
pub use crate::signals::{alu_op, cond};
use crate::isa::{disassembly_text, opcode_of, mode_of};
use crate::signals::{alu_field, cond_field, has, HALT, MEM_TO_DR, DR_TO_MEM, DONE, DR_TO_CR};
use crate::microcode::{build_microcode, micro_addr, micro_index, rom_word, row_entry, execute_row, lemma_rows_end_with_done, lemma_rom_word_slot, lemma_execute_keeps_cr, MICROCODE_SIZE};
use crate::processor::{Processor, micro_step, micro_faults};
use crate::memory::{Memory, MemoryModel, wf, cache_ready, tick_model, read_start_model, write_start_model, lemma_operations_keep_wf, lemma_tick_keeps_cache};

verus! {

/// The name of signal bit `i` (bits 0 to 21).
pub open spec fn signal_name_text(i: int) -> Seq<char> {
    if i == 0 { "PC_TO_AR"@ }
    else if i == 1 { "PC_INCR"@ }
    else if i == 2 { "DR_TO_CR"@ }
    else if i == 3 { "OPERAND_TO_AR"@ }
    else if i == 4 { "DR_TO_AR"@ }
    else if i == 5 { "MEM_TO_DR"@ }
    else if i == 6 { "DR_TO_MEM"@ }
    else if i == 7 { "DR_TO_AC"@ }
    else if i == 8 { "ALU_TO_AC"@ }
    else if i == 9 { "AC_TO_DR"@ }
    else if i == 10 { "PC_TO_DR"@ }
    else if i == 11 { "SP_TO_DR"@ }
    else if i == 12 { "SP_TO_AR"@ }
    else if i == 13 { "SP_INCR"@ }
    else if i == 14 { "SP_DECR"@ }
    else if i == 15 { "DR_TO_PC"@ }
    else if i == 16 { "ALU_TO_PC"@ }
    else if i == 17 { "DR_TO_DATA_BUS"@ }
    else if i == 18 { "IMM_TO_DATA_BUS"@ }
    else if i == 19 { "ZERO_TO_DATA_BUS"@ }
    else if i == 20 { "UPDATE_FLAGS"@ }
    else { "DONE"@ }
}

fn signal_name(i: u32) -> (s: &'static str)
    ensures
        s@ == signal_name_text(i as int),
{
    if i == 0 { "PC_TO_AR" }
    else if i == 1 { "PC_INCR" }
    else if i == 2 { "DR_TO_CR" }
    else if i == 3 { "OPERAND_TO_AR" }
    else if i == 4 { "DR_TO_AR" }
    else if i == 5 { "MEM_TO_DR" }
    else if i == 6 { "DR_TO_MEM" }
    else if i == 7 { "DR_TO_AC" }
    else if i == 8 { "ALU_TO_AC" }
    else if i == 9 { "AC_TO_DR" }
    else if i == 10 { "PC_TO_DR" }
    else if i == 11 { "SP_TO_DR" }
    else if i == 12 { "SP_TO_AR" }
    else if i == 13 { "SP_INCR" }
    else if i == 14 { "SP_DECR" }
    else if i == 15 { "DR_TO_PC" }
    else if i == 16 { "ALU_TO_PC" }
    else if i == 17 { "DR_TO_DATA_BUS" }
    else if i == 18 { "IMM_TO_DATA_BUS" }
    else if i == 19 { "ZERO_TO_DATA_BUS" }
    else if i == 20 { "UPDATE_FLAGS" }
    else { "DONE" }
}

/// The name of an ALU operation number (0 to 10).
pub open spec fn alu_name_text(op: u32) -> Seq<char> {
    if op == 0 { "PASS"@ }
    else if op == 1 { "ADD"@ }
    else if op == 2 { "SUB"@ }
    else if op == 3 { "MUL"@ }
    else if op == 4 { "DIV"@ }
    else if op == 5 { "MOD"@ }
    else if op == 6 { "AND"@ }
    else if op == 7 { "OR"@ }
    else if op == 8 { "XOR"@ }
    else if op == 9 { "NEG"@ }
    else { "NOT"@ }
}

fn alu_name(op: u32) -> (s: &'static str)
    ensures
        s@ == alu_name_text(op),
{
    if op == 0 { "PASS" }
    else if op == 1 { "ADD" }
    else if op == 2 { "SUB" }
    else if op == 3 { "MUL" }
    else if op == 4 { "DIV" }
    else if op == 5 { "MOD" }
    else if op == 6 { "AND" }
    else if op == 7 { "OR" }
    else if op == 8 { "XOR" }
    else if op == 9 { "NEG" }
    else { "NOT" }
}

/// The name of a jump condition number (1 to 4).
pub open spec fn cond_name_text(c: u32) -> Seq<char> {
    if c == 1 { "Z"@ }
    else if c == 2 { "NZ"@ }
    else if c == 3 { "N"@ }
    else { "NN"@ }
}

fn cond_name(c: u32) -> (s: &'static str)
    ensures
        s@ == cond_name_text(c),
{
    if c == 1 { "Z" }
    else if c == 2 { "NZ" }
    else if c == 3 { "N" }
    else { "NN" }
}

/// Names of the signal bits below `k` that `micro` carries, lowest first.
pub open spec fn signal_parts(micro: u32, k: nat) -> Seq<Seq<char>>
    decreases k,
{
    if k == 0 {
        Seq::empty()
    } else {
        let prev = signal_parts(micro, (k - 1) as nat);
        if micro & (1u32 << (k - 1) as u32) != 0 {
            prev.push(signal_name_text(k - 1))
        } else {
            prev
        }
    }
}

/// The names that `fmt_micro` lists: HALT, the signals, the ALU operation (when
/// it has a name) and the jump condition (when it is not "always").
pub open spec fn micro_parts(micro: u32) -> Seq<Seq<char>> {
    let halt: Seq<Seq<char>> = if micro & HALT != 0 { seq!["HALT"@] } else { Seq::empty() };
    let alu: Seq<Seq<char>> = if alu_field(micro) <= 10 { seq![alu_name_text(alu_field(micro))] } else { Seq::empty() };
    let c = cond_field(micro);
    let cnd: Seq<Seq<char>> = if 1 <= c <= 4 { seq![cond_name_text(c)] } else { Seq::empty() };
    halt + signal_parts(micro, 22) + alu + cnd
}

/// The text of a micro-instruction: its names joined with '|'.
pub open spec fn micro_text(micro: u32) -> Seq<char> {
    join(micro_parts(micro), "|"@)
}

/// Appends `name` as the next piece of a '|'-joined list; `empty` tells
/// whether no piece is there yet.
fn push_part(out: &mut String, parts: Ghost<Seq<Seq<char>>>, empty: bool, name: &str)
    requires
        old(out)@ == join(parts@, "|"@),
        empty == (parts@.len() == 0),
    ensures
        final(out)@ == join(parts@.push(name@), "|"@),
{
    proof {
        lemma_join_push(parts@, name@, "|"@);
    }
    if !empty {
        push_str(out, "|");
    }
    push_str(out, name);
    assert(final(out)@ =~= join(parts@.push(name@), "|"@));
}

/// The text of a micro-instruction: HALT, the names of its signal bits, its
/// ALU operation and its jump condition, joined with '|'.
pub fn fmt_micro(micro: u32) -> (s: String)
    ensures
        s@ == micro_text(micro),
{
    let mut out = String::new();
    let ghost mut parts: Seq<Seq<char>> = Seq::empty();
    let mut count: usize = 0;
    if micro & HALT != 0 {
        push_part(&mut out, Ghost(parts), count == 0, "HALT");
        proof { parts = parts.push("HALT"@); }
        count = count + 1;
    }
    let ghost halt_parts = parts;
    assert(halt_parts + signal_parts(micro, 0) =~= parts);
    let mut i: u32 = 0;
    while i < 22
        invariant
            i <= 22,
            count == parts.len(),
            count <= 1 + i,
            parts == halt_parts + signal_parts(micro, i as nat),
            out@ == join(parts, "|"@),
        decreases 22 - i,
    {
        if micro & (1u32 << i) != 0 {
            let name = signal_name(i);
            push_part(&mut out, Ghost(parts), count == 0, name);
            proof { parts = parts.push(name@); }
            count = count + 1;
        }
        i = i + 1;
        assert(parts =~= halt_parts + signal_parts(micro, i as nat));
    }
    let alu_op_val = (micro >> 25u32) & 0xFu32;
    if alu_op_val <= 10 {
        let name = alu_name(alu_op_val);
        push_part(&mut out, Ghost(parts), count == 0, name);
        proof { parts = parts.push(name@); }
        count = count + 1;
    }
    let cond_val = (micro >> 22u32) & 0x7u32;
    if cond_val <= 4 && cond_val != 0 {
        let name = cond_name(cond_val);
        push_part(&mut out, Ghost(parts), count == 0, name);
        proof { parts = parts.push(name@); }
    }
    assert(parts =~= micro_parts(micro));
    out
}

/// The control unit's registers as plain values.
/// A tick that cannot run: the ALU would divide by zero, the tick counter or
/// micro-PC would overflow, or the next micro-instruction lies outside the ROM.
pub struct MachineFault {}

pub struct MpuModel {
    pub micro_pc: u8,
    pub current_micro: u32,
    pub logs: Seq<char>,
}

/// The whole machine as plain values: control unit, processor, memory.
pub struct MachineState {
    pub mpu: MpuModel,
    pub proc: Processor,
    pub mem: MemoryModel,
}

pub struct Mpu {
    pub micro_pc: u8,
    pub current_micro: u32,
    pub logs: String,
    /// The microprogram ROM.
    pub rom: Vec<u32>,
}

impl Mpu {
    pub open spec fn view(&self) -> MpuModel {
        MpuModel { micro_pc: self.micro_pc, current_micro: self.current_micro, logs: self.logs@ }
    }

    /// The ROM holds the microprogram.
    pub open spec fn wf(&self) -> bool {
        &&& self.rom@.len() == MICROCODE_SIZE
        &&& forall|i: int| 0 <= i < MICROCODE_SIZE ==> #[trigger] self.rom@[i] == rom_word(i)
    }
}

/// The trace line of one tick: tick number, micro-PC, the micro-instruction,
/// the disassembled command register, PC, SP, AC, AR, DR and the memory state.
pub open spec fn trace_text(tick: u64, upc: u8, micro: u32, p: Processor, busy: bool) -> Seq<char> {
    "TICK "@ + pad_left(dec_text(tick as nat), 4) + " | \u{3bc}PC "@ + dec_text(upc as nat) + " | "@
        + pad_right(micro_text(micro), 50) + " | "@ + pad_right(disassembly_text(p.cr), 15)
        + " | PC="@ + pad_right(dec_text(p.pc as nat), 4) + " SP="@ + pad_right(dec_text(p.sp as nat), 4)
        + " AC="@ + pad_right(int_text(p.ac as int), 6) + " AR="@ + pad_right(dec_text(p.ar as nat), 4)
        + " DR="@ + zero_pad(hex_text((p.dr as u32) as nat), 8) + " mem="@
        + (if busy { "busy"@ } else { "idle"@ }) + "\n"@
}

/// The memory side of a tick, after the memory has ticked and the processor has
/// executed `micro`: a read that the micro-instruction asks for is collected or
/// started, a write is acknowledged or started, and any finished result lands
/// in the data register.
pub open spec fn memory_phase(micro: u32, p: Processor, m: MemoryModel) -> (Processor, MemoryModel) {
    let (p2, m2) = if has(micro, MEM_TO_DR) {
        if m.done {
            (Processor { dr: m.mdr, ..p }, MemoryModel { done: false, ..m })
        } else if !m.busy {
            let m3 = read_start_model(m, p.ar);
            if m3.done {
                (Processor { dr: m3.mdr, ..p }, MemoryModel { done: false, ..m3 })
            } else {
                (p, m3)
            }
        } else {
            (p, m)
        }
    } else {
        (p, m)
    };
    let m4 = if has(micro, DR_TO_MEM) {
        if m2.done {
            MemoryModel { done: false, ..m2 }
        } else if !m2.busy {
            write_start_model(m2, p2.ar, p2.dr)
        } else {
            m2
        }
    } else {
        m2
    };
    if m4.done {
        (Processor { dr: m4.mdr, ..p2 }, MemoryModel { done: false, ..m4 })
    } else {
        (p2, m4)
    }
}

/// The micro-PC after a tick: back to 0 after a finished `DONE` step, on to the
/// next slot after another finished step, unchanged while the memory is busy.
pub open spec fn next_micro_pc(upc: u8, micro: u32, busy: bool) -> int {
    if !busy && has(micro, DONE) {
        0
    } else if !busy {
        upc + 1
    } else {
        upc as int
    }
}

/// The parts of a tick before the next fetch.
pub open spec fn tick_core(s: MachineState) -> (Processor, MemoryModel) {
    let micro = s.mpu.current_micro;
    let m1 = tick_model(s.mem);
    let p1 = micro_step(s.proc, micro);
    let (p2, m2) = memory_phase(micro, p1, m1);
    let p3 = if has(micro, HALT) { Processor { run: false, ..p2 } } else { p2 };
    (p3, m2)
}

/// The memory can take a tick with `micro`: the stored words fill it, a
/// pending access has ticks left, and the cache is ready where the tick may
/// reach it (an access pending, or one that `micro` asks for).
pub open spec fn mem_ready(m: MemoryModel, micro: u32) -> bool {
    &&& m.data.len() == m.size
    &&& m.busy ==> m.counter >= 1
    &&& (m.busy || has(micro, MEM_TO_DR) || has(micro, DR_TO_MEM)) ==> cache_ready(m)
}

/// A tick can run without a fault: the memory can take it, the ALU divides
/// by no zero, the micro-PC and tick counter do not overflow, and the next
/// micro-instruction lies within the ROM.
pub open spec fn tick_ok(s: MachineState) -> bool {
    let micro = s.mpu.current_micro;
    let (p3, m2) = tick_core(s);
    let upc = next_micro_pc(s.mpu.micro_pc, micro, m2.busy);
    &&& mem_ready(s.mem, micro)
    &&& !micro_faults(s.proc, micro)
    &&& s.proc.tick_count < u64::MAX
    &&& upc <= u8::MAX
    &&& micro_index(opcode_of(p3.cr) as int, mode_of(p3.cr) as int, upc) < MICROCODE_SIZE
}

/// The control unit is in step with the ROM: the command register holds an
/// opcode that has a row, the micro-PC lies within that row's fetch and
/// execute steps, and the current micro-instruction is the ROM word there.
pub open spec fn micro_in_step(s: MachineState) -> bool {
    let op = opcode_of(s.proc.cr);
    let md = mode_of(s.proc.cr);
    &&& op < 22
    &&& s.mpu.micro_pc as int <= 1 + execute_row(op, md).len()
    &&& s.mpu.current_micro == rom_word(micro_index(op as int, md as int, s.mpu.micro_pc as int))
}

/// A tick that runs keeps the control unit in step with the ROM, and the
/// micro-PC stays at most 5: every row reaches `DONE` before slot 6.
pub proof fn lemma_tick_keeps_step(s: MachineState)
    requires
        micro_in_step(s),
        tick_ok(s),
    ensures
        micro_in_step(tick_state(s)),
        tick_state(s).mpu.micro_pc <= 5,
{
    let op = opcode_of(s.proc.cr);
    let md = mode_of(s.proc.cr);
    let upc = s.mpu.micro_pc;
    let micro = s.mpu.current_micro;
    let (p3, m2) = tick_core(s);
    let op2 = opcode_of(p3.cr);
    let md2 = mode_of(p3.cr);
    let cr = s.proc.cr;
    let cr2 = p3.cr;
    assert(md < 4 && md2 < 4) by (bit_vector)
        requires md == (cr >> 25u32) & 0x3u32, md2 == (cr2 >> 25u32) & 0x3u32;
    lemma_rows_end_with_done(op, md);
    lemma_rows_end_with_done(op2, md2);
    lemma_execute_keeps_cr(op, md);
    lemma_rom_word_slot(op, md, upc as int);
    assert(micro == row_entry(op, md, upc as int));
    if upc != 1 {
        assert(micro & DR_TO_CR == 0);
        assert(p3.cr == s.proc.cr);
    }
    let upc2 = next_micro_pc(upc, micro, m2.busy);
    if !m2.busy && micro & DONE == 0 && upc >= 2 {
        assert(upc - 2 != execute_row(op, md).len() - 1);
    }
    assert(upc2 <= 1 + execute_row(op2, md2).len());
    assert(micro_index(op2 as int, md2 as int, upc2) < 528);
    assert(op2 < 22) by (nonlinear_arith)
        requires (op2 * 4 + md2) * 6 + upc2 < 528, upc2 >= 0, md2 >= 0;
}

/// In step with the ROM, the micro-PC is at most 5.
pub proof fn lemma_in_step_bound(s: MachineState)
    requires
        micro_in_step(s),
    ensures
        s.mpu.micro_pc <= 5,
{
    let cr = s.proc.cr;
    let md = mode_of(cr);
    assert(md < 4) by (bit_vector)
        requires md == (cr >> 25u32) & 0x3u32;
    lemma_rows_end_with_done(opcode_of(cr), md);
}

/// A control unit at slot 0 of row 0, as `Mpu::new` and `Mpu::reset` leave
/// it, beside a command register of zero, as `Processor::new` leaves it, is in
/// step with the ROM.
pub proof fn lemma_start_in_step(s: MachineState)
    requires
        s.proc.cr == 0,
        s.mpu.micro_pc == 0,
        s.mpu.current_micro == rom_word(0),
    ensures
        micro_in_step(s),
{
    assert((0u32 >> 27u32) & 0x1Fu32 == 0 && (0u32 >> 25u32) & 0x3u32 == 0) by (bit_vector);
    assert(micro_index(0, 0, 0) == 0);
}

/// The machine after one tick: memory tick, micro-instruction, memory phase,
/// halt, micro-PC step, fetch of the next micro-instruction, tick count, and a
/// trace line.
pub open spec fn tick_state(s: MachineState) -> MachineState {
    let micro = s.mpu.current_micro;
    let (p3, m2) = tick_core(s);
    let upc = next_micro_pc(s.mpu.micro_pc, micro, m2.busy) as u8;
    let next = rom_word(micro_index(opcode_of(p3.cr) as int, mode_of(p3.cr) as int, upc as int));
    MachineState {
        mpu: MpuModel {
            micro_pc: upc,
            current_micro: next,
            logs: s.mpu.logs + trace_text(p3.tick_count, s.mpu.micro_pc, micro, p3, m2.busy),
        },
        proc: Processor { tick_count: (p3.tick_count + 1) as u64, ..p3 },
        mem: m2,
    }
}

/// The trace line of one tick.
pub fn trace_line(tick: u64, upc: u8, micro: u32, p: &Processor, busy: bool) -> (s: String)
    ensures
        s@ == trace_text(tick, upc, micro, *p, busy),
{
    let mut out = String::new();
    push_str(&mut out, "TICK ");
    let mut t = String::new();
    push_dec(&mut t, tick);
    push_padded_left(&mut out, &t, 4);
    push_str(&mut out, " | \u{3bc}PC ");
    push_dec(&mut out, upc as u64);
    push_str(&mut out, " | ");
    let m = fmt_micro(micro);
    push_padded_right(&mut out, &m, 50);
    push_str(&mut out, " | ");
    let d = disassemble(p.cr);
    push_padded_right(&mut out, &d, 15);
    push_str(&mut out, " | PC=");
    let mut pc = String::new();
    push_dec(&mut pc, p.pc as u64);
    push_padded_right(&mut out, &pc, 4);
    push_str(&mut out, " SP=");
    let mut sp = String::new();
    push_dec(&mut sp, p.sp as u64);
    push_padded_right(&mut out, &sp, 4);
    push_str(&mut out, " AC=");
    let mut ac = String::new();
    push_int(&mut ac, p.ac as i64);
    push_padded_right(&mut out, &ac, 6);
    push_str(&mut out, " AR=");
    let mut ar = String::new();
    push_dec(&mut ar, p.ar as u64);
    push_padded_right(&mut out, &ar, 4);
    push_str(&mut out, " DR=");
    let mut dr = String::new();
    push_hex(&mut dr, (p.dr as u32) as u64);
    push_zero_padded(&mut out, &dr, 8);
    push_str(&mut out, " mem=");
    if busy {
        push_str(&mut out, "busy");
    } else {
        push_str(&mut out, "idle");
    }
    push_str(&mut out, "\n");
    assert(out@ =~= trace_text(tick, upc, micro, *p, busy));
    out
}

impl Default for Mpu {
    fn default() -> (m: Self)
        ensures
            m.wf(),
            m@ == (MpuModel { micro_pc: 0, current_micro: rom_word(0), logs: Seq::empty() }),
    {
        Self::new()
    }
}

impl Mpu {
    /// A control unit at slot 0 of row 0 with an empty trace.
    pub fn new() -> (m: Self)
        ensures
            m.wf(),
            m@ == (MpuModel { micro_pc: 0, current_micro: rom_word(0), logs: Seq::empty() }),
    {
        let rom = build_microcode();
        let first = rom[micro_addr(0, 0, 0)];
        Mpu { micro_pc: 0, current_micro: first, logs: String::new(), rom }
    }

    /// Loads the micro-instruction at the current micro-PC of the row of
    /// `opcode` and `mode`.
    pub fn fetch(&mut self, opcode: usize, mode: usize)
        requires
            old(self).wf(),
            micro_index(opcode as int, mode as int, old(self).micro_pc as int) < MICROCODE_SIZE,
        ensures
            final(self).wf(),
            final(self)@ == (MpuModel {
                current_micro: rom_word(micro_index(opcode as int, mode as int, old(self).micro_pc as int)),
                ..old(self)@
            }),
    {
        let i = micro_addr(opcode, mode, self.micro_pc as usize);
        self.current_micro = self.rom[i];
    }

    /// Back to slot 0 of row 0.
    pub fn reset(&mut self)
        requires
            old(self).wf(),
        ensures
            final(self).wf(),
            final(self)@ == (MpuModel { micro_pc: 0, current_micro: rom_word(0), ..old(self)@ }),
    {
        self.micro_pc = 0;
        self.current_micro = self.rom[micro_addr(0, 0, 0)];
    }

    /// One machine tick where it can run without a fault (see `tick_ok`);
    /// `Err` where it cannot, found before the step that would fail.
    pub fn try_tick(&mut self, proc: &mut Processor, memory: &mut Memory) -> (r: Result<(), MachineFault>)
        requires
            old(self).wf(),
            wf(old(memory)@),
        ensures
            r is Ok <==> tick_ok((MachineState { mpu: old(self)@, proc: *old(proc), mem: old(memory)@ })),
            r is Ok ==> final(self).wf() && wf(final(memory)@) && (MachineState { mpu: final(self)@, proc: *final(proc), mem: final(memory)@ })
                == tick_state((MachineState { mpu: old(self)@, proc: *old(proc), mem: old(memory)@ })),
    {
        let ghost s = MachineState { mpu: self@, proc: *proc, mem: memory@ };
        if proc.tick_count == u64::MAX {
            return Err(MachineFault {});
        }
        let micro = self.current_micro;
        if proc.would_fault(micro) {
            return Err(MachineFault {});
        }
        proof {
            lemma_operations_keep_wf(memory@, 0, 0, Seq::empty());
        }
        memory.tick();
        proc.execute_microcommand(micro);
        memory_step(micro, proc, memory);
        if self.current_micro & HALT != 0 {
            proc.run = false;
        }
        let mem_busy = memory.is_busy();
        let trace_tick = proc.tick_count;
        let trace_upc = self.micro_pc;
        let line = trace_line(trace_tick, trace_upc, micro, proc, mem_busy);
        if !mem_busy && self.current_micro & DONE != 0 {
            self.micro_pc = 0;
        } else if !mem_busy {
            if self.micro_pc == u8::MAX {
                return Err(MachineFault {});
            }
            self.micro_pc += 1;
        }
        let op = proc.opcode();
        let md = proc.mode();
        if (op * 4 + md) * 6 + self.micro_pc as usize >= MICROCODE_SIZE {
            return Err(MachineFault {});
        }
        self.fetch(op, md);
        proc.tick_count += 1;
        self.logs.append(line.as_str());
        Ok(())
    }

    /// One machine tick (see `tick_state`).
    pub fn tick(&mut self, proc: &mut Processor, memory: &mut Memory)
        requires
            old(self).wf(),
            tick_ok((MachineState { mpu: old(self)@, proc: *old(proc), mem: old(memory)@ })),
        ensures
            final(self).wf(),
            (MachineState { mpu: final(self)@, proc: *final(proc), mem: final(memory)@ })
                == tick_state((MachineState { mpu: old(self)@, proc: *old(proc), mem: old(memory)@ })),
    {
        let ghost s = MachineState { mpu: self@, proc: *proc, mem: memory@ };
        proof {
            lemma_tick_keeps_cache(memory@);
        }
        memory.tick();

        let micro = self.current_micro;
        proc.execute_microcommand(micro);

        memory_step(micro, proc, memory);

        if self.current_micro & HALT != 0 {
            proc.run = false;
        }

        let mem_busy = memory.is_busy();

        let trace_tick = proc.tick_count;
        let trace_upc = self.micro_pc;
        let line = trace_line(trace_tick, trace_upc, micro, proc, mem_busy);

        if !mem_busy && self.current_micro & DONE != 0 {
            self.micro_pc = 0;
        } else if !mem_busy {
            self.micro_pc += 1;
        }

        self.fetch(proc.opcode(), proc.mode());

        proc.tick_count += 1;

        self.logs.append(line.as_str());
    }
}

/// The memory side of a tick (see `memory_phase`).
fn memory_step(micro: u32, proc: &mut Processor, memory: &mut Memory)
    requires
        old(memory)@.data.len() == old(memory)@.size,
        (has(micro, MEM_TO_DR) || has(micro, DR_TO_MEM)) ==> cache_ready(old(memory)@),
    ensures
        wf(old(memory)@) ==> wf(final(memory)@),
        (*final(proc), final(memory)@) == memory_phase(micro, *old(proc), old(memory)@),
{
    proof {
        if wf(memory@) {
            lemma_operations_keep_wf(memory@, proc.ar, proc.dr, Seq::empty());
        }
    }
    if micro & MEM_TO_DR != 0 {
        if memory.is_done() {
            proc.dr = memory.collect();
        } else if !memory.is_busy() {
            memory.read_start(proc.ar);
            if memory.is_done() {
                proc.dr = memory.collect();
            }
        }
    }
    proof {
        if wf(memory@) {
            lemma_operations_keep_wf(memory@, proc.ar, proc.dr, Seq::empty());
        }
    }
    if micro & DR_TO_MEM != 0 {
        if memory.is_done() {
            memory.clear_done();
        } else if !memory.is_busy() {
            memory.write_start(proc.ar, proc.dr);
        }
    }
    proof {
        if wf(memory@) {
            lemma_operations_keep_wf(memory@, proc.ar, proc.dr, Seq::empty());
        }
    }
    if memory.is_done() {
        proc.dr = memory.collect();
    }
}

} // verus!
