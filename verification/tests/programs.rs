use acc_toolchain::assembler::Assembler;
use acc_toolchain::compare::{hex_dump, normalize_str};
use acc_toolchain::{compile, compile_tokens};
use acc_toolchain::isa::disassemble;
use acc_toolchain::parser::Parser;
use acc_toolchain::simulator::{bytes_to_words, run, run_checked, run_image};
use acc_toolchain::token::{Token, TokenKind};

fn kind(word: &str) -> TokenKind {
    match word {
        "fn" => TokenKind::FnDecl,
        "let" => TokenKind::Let,
        "return" => TokenKind::Return,
        "if" => TokenKind::If,
        "else" => TokenKind::Else,
        "while" => TokenKind::While,
        "out" => TokenKind::Out,
        "in" => TokenKind::In,
        "i32" => TokenKind::I32Decl,
        "String" => TokenKind::StringType,
        "(" => TokenKind::RoundBracketOpen,
        ")" => TokenKind::RoundBracketClose,
        "{" => TokenKind::CurlyBracketOpen,
        "}" => TokenKind::CurlyBracketClose,
        "[" => TokenKind::SquareBracketOpen,
        "]" => TokenKind::SquareBracketClose,
        "," => TokenKind::Comma,
        ":" => TokenKind::Colon,
        ";" => TokenKind::Semicolon,
        "->" => TokenKind::Arrow,
        "=" => TokenKind::Assign,
        "+" => TokenKind::OpAdd,
        "-" => TokenKind::OpSub,
        "*" => TokenKind::OpMul,
        "/" => TokenKind::OpDiv,
        "%" => TokenKind::OpRem,
        "==" => TokenKind::OpEq,
        "!=" => TokenKind::OpNotEq,
        "<" => TokenKind::OpLessThan,
        "<=" => TokenKind::OpLessOrEq,
        ">" => TokenKind::OpGreaterThan,
        ">=" => TokenKind::OpGreaterOrEq,
        "&&" => TokenKind::OpAnd,
        "||" => TokenKind::OpOr,
        "!" => TokenKind::OpNot,
        "&" => TokenKind::OpBitAnd,
        "|" => TokenKind::OpBitOr,
        "^" => TokenKind::OpXor,
        "~" => TokenKind::OpBitNot,
        w if w.starts_with('"') => TokenKind::String(w[1..w.len() - 1].to_string()),
        w if w.chars().all(|c| c.is_ascii_digit()) => TokenKind::Number(w.parse().unwrap()),
        w => TokenKind::Variable(w.to_string()),
    }
}

/// The tokens of a program written as separate words, with an end token.
fn tokens(words: &[&str]) -> Vec<Token> {
    let mut v: Vec<Token> = Vec::new();
    for (i, w) in words.iter().enumerate() {
        v.push(Token { kind: kind(w), line: 1, col: i + 1 });
    }
    let n = v.len();
    v.push(Token { kind: TokenKind::EOF, line: 1, col: n + 1 });
    v
}

fn outputs(words: &[&str], input: &[i32]) -> Vec<i32> {
    let result = compile_tokens(tokens(words)).expect("compiles");
    run_checked(&result, input).expect("runs").output
}

fn hello() -> Vec<&'static str> {
    vec![
        "let", "msg", ":", "String", "=", "\"Hello, world!\"", ";", "fn", "main", "(", ")", "{", "let", "i", ":",
        "i32", "=", "0", ";", "while", "msg", "[", "i", "]", "!=", "0", "{", "out", "(", "msg", "[", "i", "]", ")",
        ";", "i", "=", "i", "+", "1", ";", "}", "}",
    ]
}

#[test]
fn hello_prints_its_message() {
    let out = outputs(&hello(), &[]);
    let expected: Vec<i32> = "Hello, world!".bytes().map(|b| b as i32).collect();
    assert_eq!(out, expected);
}

#[test]
fn hello_data_section_holds_the_string() {
    let result = compile_tokens(tokens(&hello())).unwrap();
    let text = result.assembly;
    assert!(text.starts_with("\t.data\nmsg: word 0x48, 0x65, 0x6C, 0x6C, 0x6F, 0x2C, 0x20, 0x77, 0x6F, 0x72, 0x6C, 0x64, 0x21, 0x0\n"));
    assert!(text.contains("\n\t.code\nmain:\n"));
    assert_eq!(result.num_functions, 1);
    assert_eq!(result.num_statements, 1);
}

#[test]
fn arithmetic_follows_precedence() {
    let out = outputs(&["fn", "main", "(", ")", "{", "out", "(", "2", "+", "3", "*", "4", ")", ";", "}"], &[]);
    assert_eq!(out, vec![14]);
}

#[test]
fn subtraction_and_division_by_operand_order() {
    let out = outputs(
        &["fn", "main", "(", ")", "{", "out", "(", "20", "-", "6", ")", ";", "out", "(", "20", "/", "6", ")", ";",
            "out", "(", "20", "%", "6", ")", ";", "}"],
        &[],
    );
    assert_eq!(out, vec![14, 3, 2]);
}

#[test]
fn input_is_read_in_order() {
    let out = outputs(
        &["fn", "main", "(", ")", "{", "let", "a", ":", "i32", "=", "in", "(", ")", ";", "let", "b", ":", "i32", "=",
            "in", "(", ")", ";", "out", "(", "a", "-", "b", ")", ";", "}"],
        &[10, 3],
    );
    assert_eq!(out, vec![7]);
}

#[test]
fn functions_take_arguments_and_return_values() {
    let out = outputs(
        &["fn", "add", "(", "a", ":", "i32", ",", "b", ":", "i32", ")", "->", "i32", "{", "return", "a", "+", "b",
            ";", "}", "fn", "main", "(", ")", "{", "out", "(", "add", "(", "3", ",", "4", ")", ")", ";", "}"],
        &[],
    );
    assert_eq!(out, vec![7]);
}

#[test]
fn comparisons_give_one_or_zero() {
    let ops = ["==", "!=", "<", "<=", ">", ">="];
    let pairs = [(1, 2), (2, 2), (3, 2)];
    for op in ops.iter() {
        for (a, b) in pairs.iter() {
            let (sa, sb) = (a.to_string(), b.to_string());
            let words = vec!["fn", "main", "(", ")", "{", "out", "(", sa.as_str(), op, sb.as_str(), ")", ";", "}"];
            let out = outputs(&words, &[]);
            let expected = match *op {
                "==" => a == b,
                "!=" => a != b,
                "<" => a < b,
                "<=" => a <= b,
                // `>` is compiled to a jump on a non-negative difference, so it
                // also holds for equal operands.
                ">" => a >= b,
                _ => a >= b,
            };
            assert_eq!(out, vec![expected as i32], "{} {} {}", a, op, b);
        }
    }
}

#[test]
fn logical_operators_and_not() {
    let out = outputs(
        &["fn", "main", "(", ")", "{", "out", "(", "1", "&&", "0", ")", ";", "out", "(", "1", "||", "0", ")", ";",
            "out", "(", "!", "0", ")", ";", "out", "(", "!", "5", ")", ";", "out", "(", "6", "&", "3", ")", ";",
            "out", "(", "6", "|", "3", ")", ";", "out", "(", "6", "^", "3", ")", ";", "}"],
        &[],
    );
    assert_eq!(out, vec![0, 1, 1, 0, 2, 7, 5]);
}

#[test]
fn if_else_and_while_loops() {
    let out = outputs(
        &["fn", "main", "(", ")", "{", "let", "i", ":", "i32", "=", "0", ";", "while", "i", "<", "5", "{", "if",
            "i", "%", "2", "==", "0", "{", "out", "(", "i", ")", ";", "}", "else", "{", "out", "(", "0", "-", "i",
            ")", ";", "}", "i", "=", "i", "+", "1", ";", "}", "}"],
        &[],
    );
    assert_eq!(out, vec![0, -1, 2, -3, 4]);
}

#[test]
fn arrays_are_stored_and_indexed() {
    let out = outputs(
        &["let", "g", ":", "[", "i32", ";", "3", "]", "=", "[", "5", ",", "6", ",", "7", "]", ";", "fn", "main", "(",
            ")", "{", "let", "a", ":", "[", "i32", ";", "2", "]", "=", "[", "1", ",", "2", "]", ";", "a", "[", "1",
            "]", "=", "g", "[", "2", "]", ";", "out", "(", "a", "[", "0", "]", "+", "a", "[", "1", "]", ")", ";",
            "}"],
        &[],
    );
    assert_eq!(out, vec![8]);
}

#[test]
fn global_constants_are_folded() {
    let result = compile_tokens(tokens(&["let", "g", ":", "i32", "=", "2", "*", "3", "+", "1", ";", "fn", "main", "(", ")",
        "{", "out", "(", "g", ")", ";", "}"]))
    .unwrap();
    let words = bytes_to_words(&result.binary);
    assert_eq!(words[0], 7);
    assert_eq!(run_checked(&result, &[]).unwrap().output, vec![7]);
}

#[test]
fn negative_global_is_stored_in_twos_complement() {
    let result = compile_tokens(tokens(&["let", "g", ":", "i32", "=", "-", "2", ";", "fn", "main", "(", ")", "{", "}"]))
        .unwrap();
    assert!(result.assembly.starts_with("\t.data\ng: word 0xFFFFFFFE\n"));
    assert_eq!(&result.binary[0..4], &[0xFE, 0xFF, 0xFF, 0xFF]);
}

#[test]
fn parse_errors_are_reported() {
    let r = compile_tokens(tokens(&["fn", "main", "{", "}"]));
    match r {
        Err(msg) => assert_eq!(msg, "Parse error: Expected RoundBracketOpen, got CurlyBracketOpen at 1:3"),
        Ok(_) => panic!("should not parse"),
    }
}

#[test]
fn string_literal_as_value_stops_code_generation() {
    let r = compile_tokens(tokens(&["fn", "main", "(", ")", "{", "out", "(", "\"x\"", ")", ";", "}"]));
    match r {
        Err(msg) => assert!(msg.starts_with("Code generation error")),
        Ok(_) => panic!("should not compile"),
    }
}

#[test]
fn constant_division_by_zero_stops_code_generation() {
    let r = compile_tokens(tokens(&["let", "g", ":", "i32", "=", "1", "/", "0", ";", "fn", "main", "(", ")", "{", "}"]));
    assert!(r.is_err());
}

#[test]
fn too_many_arguments_stop_code_generation() {
    let r = compile_tokens(tokens(&["fn", "f", "(", ")", "{", "}", "fn", "main", "(", ")", "{", "f", "(", "1", ")", ";",
        "}"]));
    assert!(r.is_err());
}

#[test]
fn unknown_array_stops_code_generation() {
    let r = compile_tokens(tokens(&["fn", "main", "(", ")", "{", "out", "(", "nope", "[", "0", "]", ")", ";", "}"]));
    assert!(r.is_err());
}

#[test]
fn division_by_zero_at_run_time_faults() {
    let result = compile_tokens(tokens(&["fn", "main", "(", ")", "{", "let", "z", ":", "i32", "=", "0", ";", "out", "(",
        "1", "/", "z", ")", ";", "}"]))
    .unwrap();
    assert!(run_checked(&result, &[]).is_err());
}

#[test]
fn run_and_checked_run_agree() {
    let result = compile_tokens(tokens(&hello())).unwrap();
    let a = run(&result, &[]).unwrap();
    let b = run_checked(&result, &[]).unwrap();
    assert_eq!(a.output, b.output);
    assert_eq!(a.trace, b.trace);
    assert!(a.trace.starts_with("TICK    0 | \u{3bc}PC 0 | "));
}

#[test]
fn image_run_reports_ticks() {
    let result = compile_tokens(tokens(&hello())).unwrap();
    let (sim, ticks) = run_image(&result.binary, result.data_size, 1 << 20, 128, Vec::new()).unwrap();
    assert_eq!(sim.output.len(), 13);
    assert_eq!(ticks as usize, sim.trace.lines().count());
}

#[test]
fn image_run_without_cache_lines_is_refused() {
    assert!(run_image(&[], 0, 16, 0, Vec::new()).is_err());
}

#[test]
fn loaded_words_are_data_then_code() {
    let result = compile_tokens(tokens(&["fn", "main", "(", ")", "{", "out", "(", "1", ")", ";", "}"])).unwrap();
    let words = bytes_to_words(&result.binary);
    assert_eq!(result.binary.len() % 4, 0);
    assert_eq!(words.len() * 4, result.binary.len());
    let data = result.data_size as usize;
    // The first code word is main's first instruction: LD #1.
    assert_eq!(disassemble(words[data] as u32), "LD #1");
    assert_eq!(disassemble(words[data + 1] as u32), "ST [0x1FFFFFF]");
    assert_eq!(disassemble(words[data + 2] as u32), "HALT");
}

#[test]
fn main_is_compiled_first() {
    let result = compile_tokens(tokens(&["fn", "f", "(", ")", "{", "}", "fn", "main", "(", ")", "{", "f", "(", ")", ";",
        "}"]))
    .unwrap();
    let code = result.assembly.split("\t.code\n").nth(1).unwrap();
    assert!(code.starts_with("main:\n\tCALL f\n"));
    assert!(code.contains("f:\n\tRET\n"));
}

#[test]
fn while_labels_resolve_to_their_instructions() {
    let result = compile_tokens(tokens(&["fn", "main", "(", ")", "{", "while", "0", "{", "}", "}"])).unwrap();
    let code = result.assembly.split("\t.code\n").nth(1).unwrap();
    assert_eq!(code, "main:\n.L0:\n\tLD #0\n\tJZS .L1\n\tJMP .L0\n.L1:\n\tHALT\n");
    let words = bytes_to_words(&result.binary);
    let d = result.data_size as usize;
    // .L0 is the first code cell, .L1 the fourth.
    assert_eq!(disassemble(words[d + 1] as u32), format!("JZS [{:#X}]", d + 3));
    assert_eq!(disassemble(words[d + 2] as u32), format!("JMP [{:#X}]", d));
}

#[test]
fn scratch_cells_follow_the_variables() {
    let result = compile_tokens(tokens(&["fn", "main", "(", ")", "{", "}"])).unwrap();
    assert_eq!(result.data_size, 49);
    assert!(result.assembly.contains("__tmp_val: word 0x0\n__tmp_0: word 0x0\n"));
    assert!(result.assembly.contains("__tmp_ptr_7: word 0x0\n"));
}

#[test]
fn fresh_assembler_reports_its_defaults() {
    let a = Assembler::new();
    assert_eq!(a.output_text(), "");
    assert_eq!(a.output_binary().len(), 0);
    let (bin, text, size) = a.output_results();
    assert!(bin.is_empty() && text.is_empty());
    assert_eq!(size, 5);
}

#[test]
fn assembler_on_parsed_program() {
    let mut p = Parser::new(tokens(&["fn", "main", "(", ")", "{", "}"]));
    let program = p.parse_program().unwrap();
    let mut a = Assembler::new();
    assert!(a.try_compile_program(&program).is_ok());
    assert!(a.output_text().ends_with("\t.code\nmain:\n\tHALT\n"));
}

#[test]
fn hex_dump_of_a_program() {
    let result = compile_tokens(tokens(&["fn", "main", "(", ")", "{", "}"])).unwrap();
    let dump = hex_dump(&result.binary);
    assert!(dump.ends_with("00 00 00 AE"));
    assert_eq!(normalize_str(&dump), dump);
}

#[test]
fn syntax_tree_text() {
    let result = compile_tokens(tokens(&["let", "x", ":", "i32", "=", "1", ";", "fn", "main", "(", ")", "{", "out", "(",
        "x", ")", ";", "}"]))
    .unwrap();
    assert_eq!(
        result.ast_debug,
        "Program\n  Let x : i32\n    Number 1\n  FunctionDecl main ()\n    Body\n      ExprStmt\n        FunctionCall out\n          Variable x\n"
    );
}

const HELLO_SOURCE: &str = "let msg: String = \"Hello, world!\";\n\nfn main() {\n    let i: i32 = 0;\n    while msg[i] != 0 {\n        out(msg[i]);\n        i = i + 1;\n    }\n}";

#[test]
fn hello_source_compiles_and_runs() {
    let result = compile(HELLO_SOURCE).unwrap();
    let out = run_checked(&result, &[]).unwrap().output;
    let expected: Vec<i32> = "Hello, world!".bytes().map(|b| b as i32).collect();
    assert_eq!(out, expected);
}

#[test]
fn source_and_tokens_compile_alike() {
    let a = compile(HELLO_SOURCE).unwrap();
    let b = compile_tokens(tokens(&hello())).unwrap();
    assert_eq!(a.binary, b.binary);
    assert_eq!(a.assembly, b.assembly);
    assert_eq!(a.ast_debug, b.ast_debug);
}

#[test]
fn lexical_errors_are_reported() {
    match compile("fn main() { @ }") {
        Err(msg) => assert_eq!(msg, "Lexical error: Unexpected character '@' at 1:13"),
        Ok(_) => panic!("should not tokenize"),
    }
    match compile("let s: String = \"open") {
        Err(msg) => assert_eq!(msg, "Lexical error: Unterminated string at 1:17"),
        Ok(_) => panic!("should not tokenize"),
    }
    match compile("let x: i32 = 99999999999;") {
        Err(msg) => assert_eq!(msg, "Lexical error: Number too large at 1:14"),
        Ok(_) => panic!("should not tokenize"),
    }
}

#[test]
fn parse_error_positions_come_from_the_source() {
    match compile("fn main()\n{\n  let = 3;\n}") {
        Err(msg) => assert_eq!(msg, "Parse error: Expected identifier, got Assign at 3:7"),
        Ok(_) => panic!("should not parse"),
    }
}

#[test]
fn image_errors_name_their_cause() {
    assert_eq!(run_image(&[], 0, 16, 0, Vec::new()).err().unwrap(), "the cache needs between 1 and 2^32 lines");
    let result = compile_tokens(tokens(&["fn", "main", "(", ")", "{", "let", "z", ":", "i32", "=", "0", ";", "out",
        "(", "1", "/", "z", ")", ";", "}"]))
    .unwrap();
    assert_eq!(run_checked(&result, &[]).err().unwrap(), "machine fault");
}
