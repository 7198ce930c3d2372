pub mod text;
pub mod isa;
pub mod signals;
pub mod processor;
pub mod memory;
pub mod microcode;
pub mod mpu;
pub mod simulator;
pub mod token;
pub mod lexer;
pub mod ast;
pub mod ast_format;
pub mod parser;
pub mod asm_cmd;
pub mod codegen;
pub mod assembler;
pub mod image;
pub mod compare;
pub mod verdict;
pub mod meaning;
pub mod precedence;

pub use assembler::Assembler;
pub use parser::Parser;
pub use simulator::{run, SimulationResult};

use vstd::prelude::*;
use vstd::string::StringExecFns;
use crate::token::{Token, TokenKind, TokModel, kind_tag};
use crate::lexer::{lex, lex_spec, lex_error_text};
use crate::token::toks_model;
use crate::parser::{s_program, error_text, has_eof, upto_eof, lemma_upto_eof_ready};
use crate::ast_format::{program_text, program_depth, MAX_FORMAT_DEPTH};
use crate::assembler::fresh_asm;
use crate::codegen::compile_model;
use crate::text::push_str;

verus! {

/// What compiling a program gives: the binary (data words then code words, four
/// little-endian bytes each), the number of data words, the assembly text, the
/// syntax tree as text, and the numbers of functions and global statements.
pub struct CompileResult {
    pub binary: Vec<u8>,
    pub data_size: u32,
    pub assembly: String,
    pub ast_debug: String,
    pub num_functions: usize,
    pub num_statements: usize,
}

/// The message of a program whose syntax tree nests deeper than can be laid
/// out.
pub open spec fn too_deep_text() -> Seq<char> {
    "Nesting too deep to lay out"@
}

/// The message of a program that parses but for which code cannot be
/// generated.
pub open spec fn codegen_error_text() -> Seq<char> {
    "Code generation error: the program uses a string literal as a value, an unknown array, more arguments than parameters, or more room than there is"@
}

/// What compiling tokens gives: a parse error gives `Parse error: ` and its
/// message; a program nested too deep to lay out, or one for which code
/// cannot be generated, gives its message; any other program gives the binary,
/// data size and text of the assembler's model, the syntax tree's text, and
/// the numbers of functions and global statements.
pub open spec fn compile_outcome(toks: Seq<TokModel>, r: Result<CompileResult, String>) -> bool {
    match s_program(toks) {
        Err(e) => r matches Err(msg) && msg@ == "Parse error: "@ + error_text(toks, e),
        Ok(p) => if program_depth(p) + 2 >= MAX_FORMAT_DEPTH {
            r matches Err(msg) && msg@ == too_deep_text()
        } else {
            match compile_model(fresh_asm(), p) {
                None => r matches Err(msg) && msg@ == codegen_error_text(),
                Some(s) => r matches Ok(res) && res.binary@ == s.binary && res.data_size == s.data_addr
                    && res.assembly@ == s.text && res.ast_debug@ == program_text(p)
                    && res.num_functions == p.functions.len() && res.num_statements == p.statements.len(),
            }
        },
    }
}

/// What compiling a source gives: a tokenizing error gives `Lexical error: `
/// and its message; the tokens up to the end-of-input token compile as
/// `compile_outcome` says.
pub open spec fn source_outcome(source: Seq<char>, r: Result<CompileResult, String>) -> bool {
    match lex_spec(source) {
        Err(e) => r matches Err(msg) && msg@ == "Lexical error: "@ + lex_error_text(e),
        Ok(ts) => compile_outcome(upto_eof(ts), r),
    }
}

/// Compiles a program's source: tokenizes it, then compiles the tokens (see
/// `source_outcome`).
pub fn compile(source: &str) -> (r: Result<CompileResult, String>)
    requires
        source@.len() + 2 <= usize::MAX,
    ensures
        source_outcome(source@, r),
{
    match lex(source) {
        Ok(tokens) => {
            assert(toks_model(tokens@)[tokens@.len() - 1].tag == kind_tag(TokenKind::EOF));
            compile_tokens(tokens)
        },
        Err(e) => {
            let mut msg = String::from_str("Lexical error: ");
            push_str(&mut msg, e.as_str());
            Err(msg)
        },
    }
}

/// Compiling depends on the source alone: two results that compiling one
/// source may give are both errors with the same message, or both successes
/// with the same binary, data size, assembly, syntax tree text and counts; and
/// a binary is always a whole number of four-byte words.
pub proof fn lemma_compile_deterministic(
    source: Seq<char>,
    r1: Result<CompileResult, String>,
    r2: Result<CompileResult, String>,
)
    requires
        source_outcome(source, r1),
        source_outcome(source, r2),
    ensures
        r1 is Ok <==> r2 is Ok,
        r1 matches Err(m1) ==> (r2 matches Err(m2) && m1@ == m2@),
        r1 matches Ok(a) ==> (r2 matches Ok(b) && a.binary@ == b.binary@ && a.data_size == b.data_size
            && a.assembly@ == b.assembly@ && a.ast_debug@ == b.ast_debug@ && a.num_functions == b.num_functions
            && a.num_statements == b.num_statements),
        r1 matches Ok(a) ==> a.binary@.len() % 4 == 0,
{
    if let Ok(ts) = lex_spec(source) {
        if let Ok(p) = s_program(upto_eof(ts)) {
            if program_depth(p) + 2 < MAX_FORMAT_DEPTH && compile_model(fresh_asm(), p) is Some {
                crate::image::lemma_compiled_image(p);
            }
        }
    }
}

/// Compiles the tokens of a program: parses them up to the first
/// end-of-input token, lays out the syntax tree, and assembles the program
/// with a fresh assembler (see `compile_outcome`).
pub fn compile_tokens(tokens: Vec<Token>) -> (r: Result<CompileResult, String>)
    requires
        has_eof(toks_model(tokens@)),
    ensures
        compile_outcome(upto_eof(toks_model(tokens@)), r),
{
    proof {
        lemma_upto_eof_ready(toks_model(tokens@));
    }
    let mut parser = Parser::new(tokens);
    let program = match parser.parse_program() {
        Ok(p) => p,
        Err(e) => {
            let mut msg = String::from_str("Parse error: ");
            push_str(&mut msg, e.as_str());
            return Err(msg);
        },
    };
    if !program.within_format_depth() {
        return Err(String::from_str("Nesting too deep to lay out"));
    }
    let num_functions = program.functions.len();
    let num_statements = program.statements.len();
    proof {
        crate::ast::lemma_stmts_view(program.statements@);
    }
    let ast_debug = program.format_ast();
    match assemble(&program) {
        Some((binary, assembly, data_size)) => Ok(
            CompileResult { binary, data_size, assembly, ast_debug, num_functions, num_statements },
        ),
        None => Err(String::from_str(
            "Code generation error: the program uses a string literal as a value, an unknown array, more arguments than parameters, or more room than there is",
        )),
    }
}

/// Assembles a program with a fresh assembler: its binary, text and data
/// size, or `None` where code generation cannot go on.
fn assemble(program: &crate::ast::Program) -> (r: Option<(Vec<u8>, String, u32)>)
    ensures
        match compile_model(fresh_asm(), program@) {
            None => r is None,
            Some(s) => r matches Some(t) && t.0@ == s.binary && t.1@ == s.text && t.2 == s.data_addr,
        },
{
    let mut assembler = Assembler::new();
    match assembler.try_compile_program(program) {
        Ok(()) => Some(assembler.output_results()),
        Err(_) => None,
    }
}

} // verus!
