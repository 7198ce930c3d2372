use acc_toolchain::compare::{hex_dump, normalize_str, text_value};
use acc_toolchain::isa::{disassemble, encode_instr, immediate, mnemonic};
use acc_toolchain::memory::Memory;
use acc_toolchain::microcode::{build_microcode, MICROCODE_SIZE};
use acc_toolchain::mpu::{fmt_micro, Mpu};
use acc_toolchain::processor::Processor;
use acc_toolchain::signals::{alu_op, cond, ALU_DIV, ALU_TO_AC, DONE, DR_TO_DATA_BUS, HALT, PC_INCR, PC_TO_AR};

#[test]
fn instruction_words_decode_back() {
    let w = encode_instr(0x03, 1, (-5i32) as u32);
    assert_eq!(w >> 27, 0x03);
    assert_eq!((w >> 25) & 3, 1);
    assert_eq!(immediate(w), -5);
    assert_eq!(disassemble(w), "ADD #-5");
}

#[test]
fn disassembly_of_each_mode() {
    assert_eq!(disassemble(encode_instr(0x01, 0, 0x10)), "LD [0x10]");
    assert_eq!(disassemble(encode_instr(0x02, 2, 0x20)), "ST [[0x20]]");
    assert_eq!(disassemble(encode_instr(0x15, 3, 0)), "HALT");
    assert_eq!(disassemble(encode_instr(0x1F, 3, 0)), "???");
    assert_eq!(mnemonic(0x13), "CALL");
    assert_eq!(mnemonic(0), "???");
}

#[test]
fn micro_instruction_text() {
    assert_eq!(fmt_micro(PC_TO_AR | PC_INCR), "PC_TO_AR|PC_INCR|PASS");
    assert_eq!(fmt_micro(HALT | DONE), "HALT|DONE|PASS");
    assert_eq!(fmt_micro(alu_op(1) | cond(1)), "ADD|Z");
}

#[test]
fn field_builders_shift_into_place() {
    assert_eq!(alu_op(4), ALU_DIV);
    assert_eq!(cond(3), 3 << 22);
}

#[test]
fn microcode_rom_has_every_slot() {
    let rom = build_microcode();
    assert_eq!(rom.len(), MICROCODE_SIZE);
    // Every routine starts by fetching the instruction.
    assert_eq!(rom[0] & PC_TO_AR, PC_TO_AR);
}

#[test]
fn memory_read_takes_ten_ticks_then_hits_the_cache() {
    let mut m = Memory::new(64, 8);
    m.set(5, 42);
    m.read_start(5);
    assert!(m.is_busy());
    let mut ticks = 0;
    while m.is_busy() {
        m.tick();
        ticks += 1;
    }
    assert_eq!(ticks, 10);
    assert!(m.is_done());
    assert_eq!(m.collect(), 42);
    assert!(!m.is_done());
    m.read_start(5);
    assert!(m.is_done() && !m.is_busy());
    assert_eq!(m.collect(), 42);
}

#[test]
fn memory_write_reaches_memory() {
    let mut m = Memory::new(64, 8);
    m.write_start(3, 7);
    while m.is_busy() {
        m.tick();
    }
    assert!(m.is_done());
    m.clear_done();
    assert_eq!(m.get(3), 7);
}

#[test]
fn memory_ports_read_input_and_collect_output() {
    let mut m = Memory::new(16, 4);
    m.input_buf = vec![9, 8];
    assert!(m.input_ready());
    m.read_start(0x1FFFFFE);
    assert!(m.is_done());
    assert_eq!(m.collect(), 9);
    m.write_start(0x1FFFFFF, 5);
    assert!(m.is_done());
    m.clear_done();
    assert_eq!(m.output_buf, vec![5]);
}

#[test]
fn memory_load_places_words() {
    let mut m = Memory::new(16, 4);
    m.load(2, &[1, 2, 3]);
    assert_eq!(m.get(1), 0);
    assert_eq!(m.get(2), 1);
    assert_eq!(m.get(4), 3);
}

#[test]
fn processor_alu_and_fault_check() {
    let mut p = Processor::new();
    assert!(p.run);
    p.ac = 7;
    p.dr = 0;
    assert!(p.would_fault(DR_TO_DATA_BUS | ALU_DIV | ALU_TO_AC));
    p.dr = 2;
    assert!(!p.would_fault(DR_TO_DATA_BUS | ALU_DIV | ALU_TO_AC));
    p.execute_microcommand(DR_TO_DATA_BUS | ALU_DIV | ALU_TO_AC);
    assert_eq!(p.ac, 3);
    assert_eq!(p.alu_out(), 1);
}

#[test]
fn processor_fields_of_the_command_register() {
    let mut p = Processor::new();
    p.cr = encode_instr(0x0E, 2, 9);
    assert_eq!(p.opcode(), 0x0E);
    assert_eq!(p.mode(), 2);
}

#[test]
fn mpu_fetch_and_reset() {
    let rom = build_microcode();
    let mut mpu = Mpu::new();
    assert_eq!(mpu.current_micro, rom[0]);
    mpu.fetch(1, 1);
    assert_eq!(mpu.current_micro, rom[24 + 6]);
    mpu.reset();
    assert_eq!(mpu.current_micro, rom[0]);
}

#[test]
fn normalization_trims_and_drops_empty_lines() {
    assert_eq!(normalize_str("  a  \n\n\t b\r\n   \n"), "a\nb");
    assert_eq!(normalize_str(""), "");
    assert_eq!(normalize_str("x"), "x");
    assert_eq!(normalize_str("\u{3000}y\u{a0}"), "y");
}

#[test]
fn hex_dump_pads_bytes() {
    assert_eq!(hex_dump(&[0x0A, 0xFF, 0x00]), "0A FF 00");
    assert_eq!(hex_dump(&[]), "");
}

#[test]
fn text_value_is_first_byte() {
    assert_eq!(text_value("A"), 65);
    assert_eq!(text_value(""), 0);
    assert_eq!(text_value("é"), 0xC3);
}

#[test]
fn defaults_match_new() {
    let p = Processor::default();
    let q = Processor::new();
    assert_eq!((p.pc, p.sp, p.ac, p.run, p.tick_count), (q.pc, q.sp, q.ac, q.run, q.tick_count));
    let m = Mpu::default();
    assert_eq!(m.current_micro, Mpu::new().current_micro);
    assert_eq!(m.micro_pc, 0);
    let a = acc_toolchain::assembler::Assembler::default();
    assert_eq!(a.output_results().2, 5);
}
