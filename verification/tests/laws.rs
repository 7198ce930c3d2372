use acc_toolchain::compare::normalize_str;
use acc_toolchain::isa::{disassemble, encode_instr, mnemonic};
use acc_toolchain::memory::Memory;
use acc_toolchain::microcode::micro_addr;
use acc_toolchain::mpu::Mpu;
use acc_toolchain::processor::Processor;
use acc_toolchain::simulator::{bytes_to_words, run_checked};
use acc_toolchain::verdict::{check_compiled, check_test, is_blank, split_text, TestExpectation};
use acc_toolchain::parser::Parser;
use acc_toolchain::token::{push_described, push_kind, Token, TokenKind};
use acc_toolchain::{compile, compile_tokens};

#[test]
fn normalizing_twice_changes_nothing() {
    let once = normalize_str("  first line  \n\n\t \n  second\t\r\n\n");
    assert_eq!(once, "first line\nsecond");
    assert_eq!(normalize_str(&once), once);
    assert_eq!(normalize_str(" \n \t\n"), "");
    assert_eq!(normalize_str(""), "");
}

#[test]
fn immediate_and_address_forms_for_every_opcode() {
    for op in 1u32..=21 {
        let name = mnemonic(op);
        assert_ne!(name, "???");
        if op == 21 {
            continue;
        }
        let imm = encode_instr(op, 1, (-7i32) as u32);
        assert_eq!(disassemble(imm), format!("{} #-7", name));
        let direct = encode_instr(op, 0, 0x1ABC);
        assert_eq!(disassemble(direct), format!("{} [0x1ABC]", name));
        let indirect = encode_instr(op, 2, 0x1FF_FFFF);
        assert_eq!(disassemble(indirect), format!("{} [[0x1FFFFFF]]", name));
    }
    assert_eq!(disassemble(encode_instr(1, 1, 0xFFFFFF)), "LD #16777215");
    assert_eq!(disassemble(encode_instr(1, 1, 0x1000000)), "LD #-16777216");
}

#[test]
fn micro_pc_stays_in_its_row_while_running() {
    let result = compile("fn main() { let x: i32 = in(); out(x * 3 + 1); }").unwrap();
    let words = bytes_to_words(&result.binary);
    let data = result.data_size as usize;
    let mut memory = Memory::new(1 << 12, 16);
    memory.load(0, &words[..data]);
    memory.load(result.data_size, &words[data..]);
    memory.input_buf = vec![5];
    let mut proc = Processor::new();
    proc.pc = result.data_size;
    proc.sp = result.data_size + (words.len() - data) as u32;
    let mut mpu = Mpu::new();
    let mut ticks = 0;
    while proc.run {
        assert!(mpu.try_tick(&mut proc, &mut memory).is_ok());
        assert!(mpu.micro_pc <= 5);
        assert!(proc.opcode() < 22);
        assert_eq!(mpu.current_micro, mpu.rom[micro_addr(proc.opcode(), proc.mode(), mpu.micro_pc as usize)]);
        ticks += 1;
        assert!(ticks < 100_000);
    }
    assert_eq!(memory.output_buf, vec![16]);
}

#[test]
fn compiling_twice_gives_the_same_result() {
    let source = "let g: i32 = 4;\nfn main() { let a: [i32; 3] = [1, 2, 3]; out(a[1] + g); }";
    let a = compile(source).unwrap();
    let b = compile(source).unwrap();
    assert_eq!(a.binary, b.binary);
    assert_eq!(a.data_size, b.data_size);
    assert_eq!(a.assembly, b.assembly);
    assert_eq!(a.ast_debug, b.ast_debug);
    assert_eq!(a.num_functions, b.num_functions);
    assert_eq!(a.num_statements, b.num_statements);
    assert_eq!(a.binary.len() % 4, 0);
    let e1 = match compile("fn main() { out(1) }") {
        Err(e) => e,
        Ok(_) => panic!("a missing semicolon compiles"),
    };
    let e2 = match compile("fn main() { out(1) }") {
        Err(e) => e,
        Ok(_) => panic!("a missing semicolon compiles"),
    };
    assert_eq!(e1, e2);
    assert!(e1.starts_with("Parse error: "));
}

fn expectation(stream_out: Vec<i32>, trace: &str, max_ticks: u32) -> TestExpectation {
    TestExpectation {
        ast: String::new(),
        assembly: "  ".to_string(),
        binary_code: String::new(),
        stream_out,
        trace: trace.to_string(),
        max_ticks,
    }
}

#[test]
fn verdict_checks_only_what_is_expected() {
    let result = compile("fn main() { out(7); }").unwrap();
    let sim = run_checked(&result, &[]).unwrap();
    let v = check_test(&expectation(Vec::new(), "", 0), &result, &sim);
    assert_eq!(v.ast, None);
    assert_eq!(v.assembly, None);
    assert_eq!(v.binary, None);
    assert_eq!(v.output, None);
    assert_eq!(v.ticks, None);
    assert!(v.trace_diffs.is_empty());
    assert!(v.passed);
}

#[test]
fn verdict_fails_on_wrong_output_or_too_many_ticks() {
    let result = compile("fn main() { out(7); }").unwrap();
    let sim = run_checked(&result, &[]).unwrap();
    let good = check_test(&expectation(vec![7], "", 0), &result, &sim);
    assert_eq!(good.output, Some(true));
    assert!(good.passed);
    let bad = check_test(&expectation(vec![8], "", 0), &result, &sim);
    assert_eq!(bad.output, Some(false));
    assert!(!bad.passed);
    let first = sim.trace.lines().next().unwrap().to_string();
    let lines = sim.trace.lines().count() as u32;
    let fits = check_test(&expectation(Vec::new(), &format!("  {}  \nsomething else\n", first), lines), &result, &sim);
    assert_eq!(fits.ticks, Some(true));
    assert_eq!(fits.trace_diffs, vec![1]);
    assert!(fits.passed);
    let over = check_test(&expectation(Vec::new(), &first, lines - 1), &result, &sim);
    assert_eq!(over.ticks, Some(false));
    assert!(!over.passed);
}

#[test]
fn verdict_compares_texts_normalized() {
    let result = compile("fn main() { out(7); }").unwrap();
    let mut exp = expectation(Vec::new(), "", 0);
    exp.assembly = format!("\n  {}  \n\n", result.assembly.replace('\n', "\n\n  "));
    exp.ast = "not the tree".to_string();
    let hex: Vec<String> = result.binary.iter().map(|b| format!("{:02X}", b)).collect();
    exp.binary_code = hex.join(" ");
    let c = check_compiled(&exp, &result);
    assert_eq!(c.assembly, Some(true));
    assert_eq!(c.ast, Some(false));
    assert_eq!(c.binary, Some(true));
}

#[test]
fn blank_texts_and_lines() {
    assert!(is_blank(" \t\r\n"));
    assert!(is_blank(""));
    assert!(!is_blank("  x "));
    let ls = split_text("a\nb\r\n\nc");
    assert_eq!(ls.len(), 4);
    assert_eq!(ls[1], vec!['b', '\r']);
    assert_eq!(split_text("a\n").len(), 1);
    assert_eq!(split_text("").len(), 0);
}

#[test]
fn memory_without_cache_serves_plain_and_port_accesses() {
    let mut m = Memory::new(8, 0);
    m.set(3, 9);
    assert_eq!(m.get(3), 9);
    m.load(6, &[1, 2, 3]);
    assert_eq!(m.get(6), 1);
    assert_eq!(m.get(7), 2);
    m.write_start(0x1FFFFFF, 11);
    assert!(m.is_done());
    m.clear_done();
    assert_eq!(m.output_buf, vec![11]);
    m.input_buf = vec![4];
    m.read_start(0x1FFFFFE);
    assert!(m.is_done());
    assert_eq!(m.collect(), 4);
}

fn tok(kind: TokenKind, col: usize) -> Token {
    Token { kind, line: 1, col }
}

#[test]
fn tokens_after_the_end_token_are_not_read() {
    let toks = vec![
        tok(TokenKind::FnDecl, 1),
        tok(TokenKind::Variable("main".to_string()), 2),
        tok(TokenKind::RoundBracketOpen, 3),
        tok(TokenKind::RoundBracketClose, 4),
        tok(TokenKind::CurlyBracketOpen, 5),
        tok(TokenKind::CurlyBracketClose, 6),
        tok(TokenKind::EOF, 7),
        tok(TokenKind::Semicolon, 8),
        tok(TokenKind::Let, 9),
    ];
    let r = compile_tokens(toks);
    assert!(r.is_ok());
    assert_eq!(r.ok().unwrap().num_functions, 1);
}

#[test]
fn token_text_is_shown_as_debug_formatting_shows_it() {
    let toks = vec![
        Token { kind: TokenKind::String("a\u{1}b\"c\n".to_string()), line: 2, col: 3 },
        Token { kind: TokenKind::EOF, line: 2, col: 9 },
    ];
    let mut p = Parser::new(toks);
    match p.parse_program() {
        Err(msg) => assert_eq!(msg, "Expected function or declaration, got String(\"a\\u{1}b\\\"c\\n\") at 2:3"),
        Ok(_) => panic!("a string is no item"),
    }
    let mut out = String::new();
    push_kind(&mut out, &TokenKind::Variable("x\u{7f}".to_string()));
    assert_eq!(out, "Variable(\"x\\u{7f}\")");
    let mut given = String::new();
    push_described(&mut given, &TokenKind::String(String::new()), "<q>");
    assert_eq!(given, "String(<q>)");
    let mut num = String::new();
    push_described(&mut num, &TokenKind::Number(-4), "ignored");
    assert_eq!(num, "Number(-4)");
}

#[test]
fn a_read_gives_back_what_a_write_wrote() {
    let mut m = Memory::new(64, 8);
    // Line 5 caches address 5; address 13 shares the line with another tag.
    m.read_start(5);
    while m.tick() {}
    m.collect();
    for (addr, value) in [(13u32, 77i32), (13u32, 78i32), (5u32, 55i32)] {
        m.write_start(addr, value);
        while m.tick() {}
        m.clear_done();
        m.read_start(addr);
        while m.is_busy() {
            m.tick();
        }
        assert_eq!(m.collect(), value);
        assert!(!m.is_done());
    }
}
