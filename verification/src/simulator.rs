//! Running a compiled program on the machine until it halts.
use vstd::prelude::*;
use vstd::string::StringExecFns;
use crate::CompileResult;
use crate::memory::{Memory, MemoryModel, initial_memory, load_model, wf};
use crate::mpu::{Mpu, MpuModel, MachineState, tick_ok, tick_state, micro_in_step, lemma_tick_keeps_step, lemma_in_step_bound, lemma_start_in_step};
use crate::microcode::{rom_word, micro_index};
use crate::isa::{opcode_of, mode_of};
use crate::processor::{Processor, initial_processor};

verus! {

pub struct SimulationResult {
    pub trace: String,
    pub output: Vec<i32>,
}

/// Words in memory for `run`.
pub const MEMORY_WORDS: usize = 0x1000000;

/// Lines of the cache for `run`.
pub const CACHE_LINES: usize = 1024;

/// Byte `j` of chunk `k` of `bytes`, or 0 past the end.
pub open spec fn chunk_byte(bytes: Seq<u8>, k: int, j: int) -> u32 {
    if 4 * k + j < bytes.len() {
        bytes[4 * k + j] as u32
    } else {
        0
    }
}

/// Word `k` of a byte string: bytes `4k..4k+4` in little-endian order (a short
/// last chunk is filled with zero bytes).
pub open spec fn word_at(bytes: Seq<u8>, k: int) -> i32 {
    (chunk_byte(bytes, k, 0) | (chunk_byte(bytes, k, 1) << 8u32) | (chunk_byte(bytes, k, 2) << 16u32)
        | (chunk_byte(bytes, k, 3) << 24u32)) as i32
}

/// The number of words of a byte string: one per started chunk of four bytes.
pub open spec fn word_count(bytes: Seq<u8>) -> nat {
    ((bytes.len() + 3) / 4) as nat
}

/// The words of a byte string.
pub open spec fn words_of(bytes: Seq<u8>) -> Seq<i32> {
    Seq::new(word_count(bytes), |k: int| word_at(bytes, k))
}

fn chunk_byte_exec(bytes: &[u8], base: usize, j: usize) -> (b: u32)
    requires
        base % 4 == 0,
        base < bytes@.len(),
        j < 4,
    ensures
        b == chunk_byte(bytes@, (base / 4) as int, j as int),
{
    if j < bytes.len() - base {
        bytes[base + j] as u32
    } else {
        0
    }
}

/// Splits bytes into little-endian words, four bytes each.
pub fn bytes_to_words(bytes: &[u8]) -> (words: Vec<i32>)
    ensures
        words@ == words_of(bytes@),
{
    let mut words: Vec<i32> = Vec::new();
    let n = bytes.len();
    let count: usize = n / 4 + if n % 4 != 0 { 1 } else { 0 };
    assert(count == word_count(bytes@));
    let mut k: usize = 0;
    while k < count
        invariant
            n == bytes@.len(),
            count == word_count(bytes@),
            k <= count,
            words@.len() == k,
            forall|i: int| 0 <= i < k ==> #[trigger] words@[i] == word_at(bytes@, i),
        decreases count - k,
    {
        let base = 4 * k;
        let b0 = chunk_byte_exec(bytes, base, 0);
        let b1 = chunk_byte_exec(bytes, base, 1);
        let b2 = chunk_byte_exec(bytes, base, 2);
        let b3 = chunk_byte_exec(bytes, base, 3);
        let val: u32 = b0 | (b1 << 8u32) | (b2 << 16u32) | (b3 << 24u32);
        words.push(#[verifier::truncate] (val as i32));
        k = k + 1;
    }
    assert(words@ =~= words_of(bytes@));
    words
}

/// The conditions `run` needs of a compiled program: its data section lies
/// within the binary, and code start plus code length fits an address.
pub open spec fn loadable(result: &CompileResult) -> bool {
    let words = words_of(result.binary@);
    &&& result.data_size as int <= words.len()
    &&& result.data_size as int + (words.len() - result.data_size as int) <= u32::MAX
}

/// The machine when `run` starts ticking: data words from address 0, code words
/// after them, the input queued, the PC at the first code word, the stack
/// pointer just past the code.
pub open spec fn start_state(result: &CompileResult, input: Seq<i32>) -> MachineState {
    let words = words_of(result.binary@);
    let data_end = result.data_size;
    let m0 = initial_memory(MEMORY_WORDS, CACHE_LINES);
    let m1 = load_model(m0, 0, words.subrange(0, data_end as int));
    let m2 = load_model(m1, data_end, words.subrange(data_end as int, words.len() as int));
    MachineState {
        mpu: MpuModel { micro_pc: 0, current_micro: rom_word(0), logs: Seq::empty() },
        proc: Processor {
            pc: data_end,
            sp: (data_end + (words.len() - data_end as int)) as u32,
            ..initial_processor()
        },
        mem: MemoryModel { input_buf: input, ..m2 },
    }
}

/// The machine after `n` ticks.
pub open spec fn state_after(s: MachineState, n: nat) -> MachineState
    decreases n,
{
    if n == 0 {
        s
    } else {
        tick_state(state_after(s, (n - 1) as nat))
    }
}

/// The machine runs and its next tick is free of faults.
pub open spec fn running_ok(s: MachineState) -> bool {
    s.proc.run && tick_ok(s)
}

/// The machine stops after exactly `n` ticks: it runs before each of them, each
/// of them is free of faults, and it has stopped after the last.
pub open spec fn halts_after(s: MachineState, n: nat) -> bool {
    &&& !state_after(s, n).proc.run
    &&& forall|m: nat| m < n ==> #[trigger] running_ok(state_after(s, m))
}

/// Runs a compiled program with the given input until it halts, and returns
/// the trace and the output.
pub fn run(result: &CompileResult, input: &[i32]) -> (r: Result<SimulationResult, String>)
    requires
        loadable(result),
        exists|n: nat| halts_after(start_state(result, input@), n),
    ensures
        r matches Ok(sim) && {
            let n = choose|n: nat| halts_after(start_state(result, input@), n);
            let last = state_after(start_state(result, input@), n);
            &&& sim.trace@ == last.mpu.logs
            &&& sim.output@ == last.mem.output_buf
        },
{
    let mut memory = Memory::new(MEMORY_WORDS, CACHE_LINES);
    let mut mpu = Mpu::new();
    let mut proc = Processor::new();

    let data_end = result.data_size;

    let words = bytes_to_words(result.binary.as_slice());

    let data_words = data_end as usize;

    memory.load(0, vstd::slice::slice_subrange(words.as_slice(), 0, data_words));
    let code_len = words.len() - data_words;
    memory.load(data_end, vstd::slice::slice_subrange(words.as_slice(), data_words, words.len()));

    memory.input_buf = vstd::slice::slice_to_vec(input);

    proc.pc = data_end;
    proc.sp = data_end + code_len as u32;

    let ghost s0 = start_state(result, input@);
    let ghost n = choose|n: nat| halts_after(s0, n);
    let ghost mut k: nat = 0;
    assert(memory@ == s0.mem);
    assert(proc == s0.proc);
    while proc.run
        invariant
            mpu.wf(),
            halts_after(s0, n),
            k <= n,
            (MachineState { mpu: mpu@, proc: proc, mem: memory@ }) == state_after(s0, k),
        decreases n - k,
    {
        assert(k < n);
        assert(running_ok(state_after(s0, k)));
        mpu.tick(&mut proc, &mut memory);
        proof {
            k = k + 1;
        }
    }
    assert(k == n) by {
        if k < n {
            assert(running_ok(state_after(s0, k)));
        }
    }
    Ok(SimulationResult { trace: mpu.logs, output: memory.output_buf })
}

/// The machine when a binary image starts running: the words of `bytes`
/// below `data_end` (as many as there are) loaded from address 0, the rest
/// from `data_end` on, the input queued, the PC at `data_end`, the stack
/// pointer just past the code.
pub open spec fn image_state(bytes: Seq<u8>, data_end: u32, mem_words: usize, cache_lines: usize, input: Seq<i32>) -> MachineState {
    let words = words_of(bytes);
    let dw: int = if data_end as int <= words.len() { data_end as int } else { words.len() as int };
    let m0 = initial_memory(mem_words, cache_lines);
    let m1 = load_model(m0, 0, words.subrange(0, dw));
    let m2 = load_model(m1, data_end, words.subrange(dw, words.len() as int));
    MachineState {
        mpu: MpuModel { micro_pc: 0, current_micro: rom_word(0), logs: Seq::empty() },
        proc: Processor { pc: data_end, sp: (data_end + (words.len() - dw)) as u32, ..initial_processor() },
        mem: MemoryModel { input_buf: input, ..m2 },
    }
}

/// An image can be set up: the cache has lines and at most 2^32 of them, and
/// the code's addresses and the stack pointer fit their types.
pub open spec fn image_ok(bytes: Seq<u8>, data_end: u32, cache_lines: usize) -> bool {
    let words = words_of(bytes);
    let dw: int = if data_end as int <= words.len() { data_end as int } else { words.len() as int };
    &&& 0 < cache_lines <= u32::MAX
    &&& data_end as int + (words.len() - dw) <= u32::MAX
    &&& data_end as int + (words.len() - dw) <= usize::MAX
}

/// Fault-free ticks from a state in step with the ROM reach only states in
/// step with it.
proof fn lemma_ticks_keep_step(s: MachineState, n: nat)
    requires
        micro_in_step(s),
        forall|m: nat| m < n ==> #[trigger] tick_ok(state_after(s, m)),
    ensures
        micro_in_step(state_after(s, n)),
    decreases n,
{
    if n > 0 {
        let m = (n - 1) as nat;
        assert(tick_ok(state_after(s, m)));
        lemma_ticks_keep_step(s, m);
        lemma_tick_keeps_step(state_after(s, m));
    }
}

/// In every state that fault-free ticks reach from a machine as `Mpu::new` and
/// `Processor::new` leave it (any PC, stack pointer, memory), the micro-PC is
/// at most 5 and the current micro-instruction is the ROM word at the micro-PC
/// of the row of the command register's opcode and mode.
pub proof fn lemma_micro_pc_in_row(s: MachineState, n: nat)
    requires
        s.proc.cr == 0,
        s.mpu.micro_pc == 0,
        s.mpu.current_micro == rom_word(0),
        forall|m: nat| m < n ==> #[trigger] tick_ok(state_after(s, m)),
    ensures
        state_after(s, n).mpu.micro_pc <= 5,
        opcode_of(state_after(s, n).proc.cr) < 22,
        state_after(s, n).mpu.current_micro == rom_word(micro_index(
            opcode_of(state_after(s, n).proc.cr) as int,
            mode_of(state_after(s, n).proc.cr) as int,
            state_after(s, n).mpu.micro_pc as int,
        )),
{
    lemma_start_in_step(s);
    lemma_ticks_keep_step(s, n);
    lemma_in_step_bound(state_after(s, n));
}

/// The machine halts after some number of ticks.
pub open spec fn halts_at_some(s: MachineState) -> bool {
    exists|n: nat| #[trigger] halts_after(s, n)
}

/// The number of ticks after which the machine halts.
pub open spec fn halt_time(s: MachineState) -> nat {
    choose|n: nat| #[trigger] halts_after(s, n)
}

/// A machine halts after one number of ticks only.
pub proof fn lemma_halt_unique(s: MachineState, a: nat, b: nat)
    requires
        halts_after(s, a),
        halts_after(s, b),
    ensures
        a == b,
{
    if a < b {
        assert(running_ok(state_after(s, a)));
    } else if b < a {
        assert(running_ok(state_after(s, b)));
    }
}

/// The machine halts after `n` ticks with this trace, output and tick count.
pub open spec fn finished(s: MachineState, n: nat, trace: Seq<char>, output: Seq<i32>, ticks: u64) -> bool {
    let last = state_after(s, n);
    &&& halts_after(s, n)
    &&& trace == last.mpu.logs
    &&& output == last.mem.output_buf
    &&& ticks == last.proc.tick_count
}

/// The machine stops at tick `m` on a fault: it runs without a fault before
/// each earlier tick, still runs at `m`, and its next tick would fault.
pub open spec fn faults_at(s: MachineState, m: nat) -> bool {
    &&& forall|k: nat| k < m ==> #[trigger] running_ok(state_after(s, k))
    &&& state_after(s, m).proc.run
    &&& !tick_ok(state_after(s, m))
}

/// A machine that halts never faults on the way.
pub proof fn lemma_halt_excludes_fault(s: MachineState, n: nat, m: nat)
    requires
        halts_after(s, n),
    ensures
        !faults_at(s, m),
{
    if !faults_at(s, m) {
    } else if m < n {
        assert(running_ok(state_after(s, m)));
    } else if m > n {
        assert(running_ok(state_after(s, n)));
    }
}

/// Runs a binary image until the machine halts (or a tick would fault) and
/// returns the trace, the output and the tick count. `Err` where the image
/// cannot be set up or a tick would fault.
pub fn run_image(bytes: &[u8], data_end: u32, mem_words: usize, cache_lines: usize, input: Vec<i32>)
    -> (r: Result<(SimulationResult, u64), String>)
    ensures
        match r {
            Ok((sim, ticks)) => image_ok(bytes@, data_end, cache_lines) && halts_at_some(
                image_state(bytes@, data_end, mem_words, cache_lines, input@),
            ) && finished(
                image_state(bytes@, data_end, mem_words, cache_lines, input@),
                halt_time(image_state(bytes@, data_end, mem_words, cache_lines, input@)),
                sim.trace@,
                sim.output@,
                ticks,
            ),
            Err(msg) => if !(0 < cache_lines <= u32::MAX) {
                msg@ == "the cache needs between 1 and 2^32 lines"@
            } else if !image_ok(bytes@, data_end, cache_lines) {
                msg@ == "the code does not fit the address space"@
            } else {
                msg@ == "machine fault"@ && exists|m: nat|
                    faults_at(image_state(bytes@, data_end, mem_words, cache_lines, input@), m)
            },
        },
        image_ok(bytes@, data_end, cache_lines) && halts_at_some(image_state(bytes@, data_end, mem_words, cache_lines, input@))
            ==> r is Ok,
{
    if cache_lines == 0 || cache_lines as u64 > u32::MAX as u64 {
        return Err(String::from_str("the cache needs between 1 and 2^32 lines"));
    }
    let words = bytes_to_words(bytes);
    let data_words: usize = if (data_end as usize) <= words.len() { data_end as usize } else { words.len() };
    let code_len = words.len() - data_words;
    if code_len as u64 > (u32::MAX - data_end) as u64 || code_len > usize::MAX - data_end as usize {
        return Err(String::from_str("the code does not fit the address space"));
    }
    let mut memory = Memory::new(mem_words, cache_lines);
    let mut mpu = Mpu::new();
    let mut proc = Processor::new();
    memory.load(0, vstd::slice::slice_subrange(words.as_slice(), 0, data_words));
    memory.load(data_end, vstd::slice::slice_subrange(words.as_slice(), data_words, words.len()));
    memory.input_buf = input;
    proc.pc = data_end;
    proc.sp = data_end + code_len as u32;

    let ghost s0 = image_state(bytes@, data_end, mem_words, cache_lines, input@);
    let ghost mut k: nat = 0;
    assert(memory@ == s0.mem);
    assert(proc == s0.proc);
    assert(wf(memory@));
    while proc.run
        invariant
            mpu.wf(),
            wf(memory@),
            image_ok(bytes@, data_end, cache_lines),
            s0 == image_state(bytes@, data_end, mem_words, cache_lines, input@),
            (MachineState { mpu: mpu@, proc: proc, mem: memory@ }) == state_after(s0, k),
            forall|j: nat| j < k ==> #[trigger] running_ok(state_after(s0, j)),
        decreases u64::MAX - proc.tick_count,
    {
        let ghost before = proc.tick_count;
        match mpu.try_tick(&mut proc, &mut memory) {
            Ok(()) => {},
            Err(_) => {
                proof {
                    assert(faults_at(s0, k));
                    if halts_at_some(s0) {
                        lemma_halt_excludes_fault(s0, halt_time(s0), k);
                    }
                }
                return Err(String::from_str("machine fault"));
            },
        }
        proof {
            assert(running_ok(state_after(s0, k)));
            assert forall|j: nat| j < k + 1 implies #[trigger] running_ok(state_after(s0, j)) by {
                if j < k {
                    assert(running_ok(state_after(s0, j)));
                }
            }
            k = k + 1;
        }
        assert(proc.tick_count == before + 1);
    }
    assert(halts_after(s0, k));
    let ticks = proc.tick_count;
    assert(finished(s0, k, mpu.logs@, memory.output_buf@, ticks));
    proof {
        assert(halts_at_some(s0));
        lemma_halt_unique(s0, k, halt_time(s0));
    }
    Ok((SimulationResult { trace: mpu.logs, output: memory.output_buf }, ticks))
}

/// Runs a compiled program with the given input until it halts, like `run`,
/// but `Err` where the program cannot be loaded or a tick would fault.
pub fn run_checked(result: &CompileResult, input: &[i32]) -> (r: Result<SimulationResult, String>)
    ensures
        match r {
            Ok(sim) => loadable(result) && halts_at_some(start_state(result, input@)) && {
                let last = state_after(start_state(result, input@), halt_time(start_state(result, input@)));
                sim.trace@ == last.mpu.logs && sim.output@ == last.mem.output_buf
            },
            Err(msg) => if !loadable(result) {
                msg@ == "the program does not fit the memory"@
            } else {
                msg@ == "machine fault"@ && exists|m: nat| faults_at(start_state(result, input@), m)
            },
        },
        loadable(result) && halts_at_some(start_state(result, input@)) ==> r is Ok,
{
    let n = result.binary.len();
    let count: usize = n / 4 + if n % 4 != 0 { 1 } else { 0 };
    assert(count == word_count(result.binary@));
    if result.data_size as usize > count || (count - result.data_size as usize) as u64 > (u32::MAX - result.data_size) as u64 {
        return Err(String::from_str("the program does not fit the memory"));
    }
    let r = run_image(result.binary.as_slice(), result.data_size, MEMORY_WORDS, CACHE_LINES, vstd::slice::slice_to_vec(input));
    proof {
        assert(image_state(result.binary@, result.data_size, MEMORY_WORDS, CACHE_LINES, input@) == start_state(result, input@));
    }
    match r {
        Ok((sim, ticks)) => {
            Ok(sim)
        },
        Err(e) => Err(e),
    }
}

} // verus!
