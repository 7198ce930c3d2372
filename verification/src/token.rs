//! The tokens that the parser reads: a kind, with the text or number it
//! carries, and the line and column where it starts.
use vstd::prelude::*;
use crate::text::{int_text, push_str, push_int};

verus! {

pub enum TokenKind {
    FnDecl,
    Let,
    Return,
    If,
    Else,
    While,
    Out,
    In,
    I32Decl,
    StringType,
    RoundBracketOpen,
    RoundBracketClose,
    CurlyBracketOpen,
    CurlyBracketClose,
    SquareBracketOpen,
    SquareBracketClose,
    Comma,
    Colon,
    Semicolon,
    Arrow,
    Assign,
    OpAdd,
    OpSub,
    OpMul,
    OpDiv,
    OpRem,
    OpEq,
    OpNotEq,
    OpLessThan,
    OpLessOrEq,
    OpGreaterThan,
    OpGreaterOrEq,
    OpAnd,
    OpOr,
    OpNot,
    OpBitAnd,
    OpBitOr,
    OpXor,
    OpBitNot,
    Variable(String),
    Number(i32),
    String(String),
    EOF,
}

pub struct Token {
    pub kind: TokenKind,
    pub line: usize,
    pub col: usize,
}

/// A number per kind of token, the same for tokens that differ only in what
/// text or number they carry.
pub open spec fn kind_tag(k: TokenKind) -> nat {
    match k {
        TokenKind::FnDecl => 0,
        TokenKind::Let => 1,
        TokenKind::Return => 2,
        TokenKind::If => 3,
        TokenKind::Else => 4,
        TokenKind::While => 5,
        TokenKind::Out => 6,
        TokenKind::In => 7,
        TokenKind::I32Decl => 8,
        TokenKind::StringType => 9,
        TokenKind::RoundBracketOpen => 10,
        TokenKind::RoundBracketClose => 11,
        TokenKind::CurlyBracketOpen => 12,
        TokenKind::CurlyBracketClose => 13,
        TokenKind::SquareBracketOpen => 14,
        TokenKind::SquareBracketClose => 15,
        TokenKind::Comma => 16,
        TokenKind::Colon => 17,
        TokenKind::Semicolon => 18,
        TokenKind::Arrow => 19,
        TokenKind::Assign => 20,
        TokenKind::OpAdd => 21,
        TokenKind::OpSub => 22,
        TokenKind::OpMul => 23,
        TokenKind::OpDiv => 24,
        TokenKind::OpRem => 25,
        TokenKind::OpEq => 26,
        TokenKind::OpNotEq => 27,
        TokenKind::OpLessThan => 28,
        TokenKind::OpLessOrEq => 29,
        TokenKind::OpGreaterThan => 30,
        TokenKind::OpGreaterOrEq => 31,
        TokenKind::OpAnd => 32,
        TokenKind::OpOr => 33,
        TokenKind::OpNot => 34,
        TokenKind::OpBitAnd => 35,
        TokenKind::OpBitOr => 36,
        TokenKind::OpXor => 37,
        TokenKind::OpBitNot => 38,
        TokenKind::Variable(_) => 39,
        TokenKind::Number(_) => 40,
        TokenKind::String(_) => 41,
        TokenKind::EOF => 42,
    }
}

/// The number of a token's kind.
pub fn tag_of(k: &TokenKind) -> (t: u8)
    ensures
        t as nat == kind_tag(*k),
{
    match k {
        TokenKind::FnDecl => 0,
        TokenKind::Let => 1,
        TokenKind::Return => 2,
        TokenKind::If => 3,
        TokenKind::Else => 4,
        TokenKind::While => 5,
        TokenKind::Out => 6,
        TokenKind::In => 7,
        TokenKind::I32Decl => 8,
        TokenKind::StringType => 9,
        TokenKind::RoundBracketOpen => 10,
        TokenKind::RoundBracketClose => 11,
        TokenKind::CurlyBracketOpen => 12,
        TokenKind::CurlyBracketClose => 13,
        TokenKind::SquareBracketOpen => 14,
        TokenKind::SquareBracketClose => 15,
        TokenKind::Comma => 16,
        TokenKind::Colon => 17,
        TokenKind::Semicolon => 18,
        TokenKind::Arrow => 19,
        TokenKind::Assign => 20,
        TokenKind::OpAdd => 21,
        TokenKind::OpSub => 22,
        TokenKind::OpMul => 23,
        TokenKind::OpDiv => 24,
        TokenKind::OpRem => 25,
        TokenKind::OpEq => 26,
        TokenKind::OpNotEq => 27,
        TokenKind::OpLessThan => 28,
        TokenKind::OpLessOrEq => 29,
        TokenKind::OpGreaterThan => 30,
        TokenKind::OpGreaterOrEq => 31,
        TokenKind::OpAnd => 32,
        TokenKind::OpOr => 33,
        TokenKind::OpNot => 34,
        TokenKind::OpBitAnd => 35,
        TokenKind::OpBitOr => 36,
        TokenKind::OpXor => 37,
        TokenKind::OpBitNot => 38,
        TokenKind::Variable(_) => 39,
        TokenKind::Number(_) => 40,
        TokenKind::String(_) => 41,
        TokenKind::EOF => 42,
    }
}

/// What std's `Debug` for `str` writes for a string (as `{:?}` prints it):
/// the string in double quotes with escapes.
pub uninterp spec fn debug_str(s: Seq<char>) -> Seq<char>;

/// `format!("{:?}", s)`: std's `Debug` for `str`. Its result is taken to be a
/// function of the string alone, named `debug_str`; which characters it
/// escapes, and how, rests on std's Unicode tables and is not stated here.
#[verifier::external_body]
fn debug_quoted(s: &str) -> (r: String)
    ensures
        r@ == debug_str(s@),
{
    format!("{:?}", s)
}

/// The text or nothing that a token kind carries.
pub open spec fn payload_text(k: TokenKind) -> Seq<char> {
    match k {
        TokenKind::Variable(s) => s@,
        TokenKind::String(s) => s@,
        _ => Seq::empty(),
    }
}

/// The description of a token kind in messages, as `{:?}` prints the kind:
/// its name, with the number it carries or the text it carries as `debug_str`
/// gives it in parentheses.
pub open spec fn kind_text(k: TokenKind) -> Seq<char> {
    described_text(k, debug_str(payload_text(k)))
}

/// The description of a token kind with `quoted` standing for the text it
/// carries: its name, with that text or its number in parentheses.
pub open spec fn described_text(k: TokenKind, quoted: Seq<char>) -> Seq<char> {
    match k {
        TokenKind::FnDecl => "FnDecl"@,
        TokenKind::Let => "Let"@,
        TokenKind::Return => "Return"@,
        TokenKind::If => "If"@,
        TokenKind::Else => "Else"@,
        TokenKind::While => "While"@,
        TokenKind::Out => "Out"@,
        TokenKind::In => "In"@,
        TokenKind::I32Decl => "I32Decl"@,
        TokenKind::StringType => "StringType"@,
        TokenKind::RoundBracketOpen => "RoundBracketOpen"@,
        TokenKind::RoundBracketClose => "RoundBracketClose"@,
        TokenKind::CurlyBracketOpen => "CurlyBracketOpen"@,
        TokenKind::CurlyBracketClose => "CurlyBracketClose"@,
        TokenKind::SquareBracketOpen => "SquareBracketOpen"@,
        TokenKind::SquareBracketClose => "SquareBracketClose"@,
        TokenKind::Comma => "Comma"@,
        TokenKind::Colon => "Colon"@,
        TokenKind::Semicolon => "Semicolon"@,
        TokenKind::Arrow => "Arrow"@,
        TokenKind::Assign => "Assign"@,
        TokenKind::OpAdd => "OpAdd"@,
        TokenKind::OpSub => "OpSub"@,
        TokenKind::OpMul => "OpMul"@,
        TokenKind::OpDiv => "OpDiv"@,
        TokenKind::OpRem => "OpRem"@,
        TokenKind::OpEq => "OpEq"@,
        TokenKind::OpNotEq => "OpNotEq"@,
        TokenKind::OpLessThan => "OpLessThan"@,
        TokenKind::OpLessOrEq => "OpLessOrEq"@,
        TokenKind::OpGreaterThan => "OpGreaterThan"@,
        TokenKind::OpGreaterOrEq => "OpGreaterOrEq"@,
        TokenKind::OpAnd => "OpAnd"@,
        TokenKind::OpOr => "OpOr"@,
        TokenKind::OpNot => "OpNot"@,
        TokenKind::OpBitAnd => "OpBitAnd"@,
        TokenKind::OpBitOr => "OpBitOr"@,
        TokenKind::OpXor => "OpXor"@,
        TokenKind::OpBitNot => "OpBitNot"@,
        TokenKind::Variable(_) => "Variable("@ + quoted + ")"@,
        TokenKind::Number(n) => "Number("@ + int_text(n as int) + ")"@,
        TokenKind::String(_) => "String("@ + quoted + ")"@,
        TokenKind::EOF => "EOF"@,
    }
}

/// A token as plain values: the number of its kind, the text of an
/// identifier or string, the value of a number, and where it starts.
pub struct TokModel {
    pub tag: nat,
    pub text: Seq<char>,
    pub num: i32,
    pub line: nat,
    pub col: nat,
}

/// A token as plain values.
pub open spec fn tok_model(t: Token) -> TokModel {
    TokModel {
        tag: kind_tag(t.kind),
        text: match t.kind {
            TokenKind::Variable(s) => s@,
            TokenKind::String(s) => s@,
            _ => Seq::empty(),
        },
        num: match t.kind {
            TokenKind::Number(n) => n,
            _ => 0,
        },
        line: t.line as nat,
        col: t.col as nat,
    }
}

/// Tokens as plain values.
pub open spec fn toks_model(ts: Seq<Token>) -> Seq<TokModel> {
    Seq::new(ts.len(), |i: int| tok_model(ts[i]))
}


/// The number of the kind of identifiers.
pub open spec fn tag_variable() -> nat {
    39
}

/// The number of the kind of numbers.
pub open spec fn tag_number() -> nat {
    40
}

/// The number of the kind of string literals.
pub open spec fn tag_string() -> nat {
    41
}

/// The number of the end-of-input kind.
pub open spec fn tag_eof() -> nat {
    42
}

/// The name of a kind that carries nothing, by its number.
pub open spec fn tag_name(tag: nat) -> Seq<char> {
    if tag == 0 { "FnDecl"@ }
    else if tag == 1 { "Let"@ }
    else if tag == 2 { "Return"@ }
    else if tag == 3 { "If"@ }
    else if tag == 4 { "Else"@ }
    else if tag == 5 { "While"@ }
    else if tag == 6 { "Out"@ }
    else if tag == 7 { "In"@ }
    else if tag == 8 { "I32Decl"@ }
    else if tag == 9 { "StringType"@ }
    else if tag == 10 { "RoundBracketOpen"@ }
    else if tag == 11 { "RoundBracketClose"@ }
    else if tag == 12 { "CurlyBracketOpen"@ }
    else if tag == 13 { "CurlyBracketClose"@ }
    else if tag == 14 { "SquareBracketOpen"@ }
    else if tag == 15 { "SquareBracketClose"@ }
    else if tag == 16 { "Comma"@ }
    else if tag == 17 { "Colon"@ }
    else if tag == 18 { "Semicolon"@ }
    else if tag == 19 { "Arrow"@ }
    else if tag == 20 { "Assign"@ }
    else if tag == 21 { "OpAdd"@ }
    else if tag == 22 { "OpSub"@ }
    else if tag == 23 { "OpMul"@ }
    else if tag == 24 { "OpDiv"@ }
    else if tag == 25 { "OpRem"@ }
    else if tag == 26 { "OpEq"@ }
    else if tag == 27 { "OpNotEq"@ }
    else if tag == 28 { "OpLessThan"@ }
    else if tag == 29 { "OpLessOrEq"@ }
    else if tag == 30 { "OpGreaterThan"@ }
    else if tag == 31 { "OpGreaterOrEq"@ }
    else if tag == 32 { "OpAnd"@ }
    else if tag == 33 { "OpOr"@ }
    else if tag == 34 { "OpNot"@ }
    else if tag == 35 { "OpBitAnd"@ }
    else if tag == 36 { "OpBitOr"@ }
    else if tag == 37 { "OpXor"@ }
    else if tag == 38 { "OpBitNot"@ }
    else { "EOF"@ }
}

/// The description of a token in messages, from its plain values (see
/// `kind_text`).
pub open spec fn model_text(t: TokModel) -> Seq<char> {
    if t.tag == tag_variable() {
        "Variable("@ + debug_str(t.text) + ")"@
    } else if t.tag == tag_number() {
        "Number("@ + int_text(t.num as int) + ")"@
    } else if t.tag == tag_string() {
        "String("@ + debug_str(t.text) + ")"@
    } else {
        tag_name(t.tag)
    }
}

/// A token's description is that of its plain values.
pub proof fn lemma_model_text(t: Token)
    ensures
        kind_text(t.kind) == model_text(tok_model(t)),
{
}

/// Appends the description of a token kind (see `kind_text`).
pub fn push_kind(out: &mut String, k: &TokenKind)
    ensures
        final(out)@ == old(out)@ + kind_text(*k),
{
    match k {
        TokenKind::Variable(s) => {
            let q = debug_quoted(s.as_str());
            push_described(out, k, q.as_str());
        },
        TokenKind::String(s) => {
            let q = debug_quoted(s.as_str());
            push_described(out, k, q.as_str());
        },
        _ => {
            push_described(out, k, "");
        },
    }
}

/// Appends the description of a token kind with `quoted` standing for the
/// text it carries (see `described_text`).
pub fn push_described(out: &mut String, k: &TokenKind, quoted: &str)
    ensures
        final(out)@ == old(out)@ + described_text(*k, quoted@),
{
    match k {
        TokenKind::FnDecl => push_str(out, "FnDecl"),
        TokenKind::Let => push_str(out, "Let"),
        TokenKind::Return => push_str(out, "Return"),
        TokenKind::If => push_str(out, "If"),
        TokenKind::Else => push_str(out, "Else"),
        TokenKind::While => push_str(out, "While"),
        TokenKind::Out => push_str(out, "Out"),
        TokenKind::In => push_str(out, "In"),
        TokenKind::I32Decl => push_str(out, "I32Decl"),
        TokenKind::StringType => push_str(out, "StringType"),
        TokenKind::RoundBracketOpen => push_str(out, "RoundBracketOpen"),
        TokenKind::RoundBracketClose => push_str(out, "RoundBracketClose"),
        TokenKind::CurlyBracketOpen => push_str(out, "CurlyBracketOpen"),
        TokenKind::CurlyBracketClose => push_str(out, "CurlyBracketClose"),
        TokenKind::SquareBracketOpen => push_str(out, "SquareBracketOpen"),
        TokenKind::SquareBracketClose => push_str(out, "SquareBracketClose"),
        TokenKind::Comma => push_str(out, "Comma"),
        TokenKind::Colon => push_str(out, "Colon"),
        TokenKind::Semicolon => push_str(out, "Semicolon"),
        TokenKind::Arrow => push_str(out, "Arrow"),
        TokenKind::Assign => push_str(out, "Assign"),
        TokenKind::OpAdd => push_str(out, "OpAdd"),
        TokenKind::OpSub => push_str(out, "OpSub"),
        TokenKind::OpMul => push_str(out, "OpMul"),
        TokenKind::OpDiv => push_str(out, "OpDiv"),
        TokenKind::OpRem => push_str(out, "OpRem"),
        TokenKind::OpEq => push_str(out, "OpEq"),
        TokenKind::OpNotEq => push_str(out, "OpNotEq"),
        TokenKind::OpLessThan => push_str(out, "OpLessThan"),
        TokenKind::OpLessOrEq => push_str(out, "OpLessOrEq"),
        TokenKind::OpGreaterThan => push_str(out, "OpGreaterThan"),
        TokenKind::OpGreaterOrEq => push_str(out, "OpGreaterOrEq"),
        TokenKind::OpAnd => push_str(out, "OpAnd"),
        TokenKind::OpOr => push_str(out, "OpOr"),
        TokenKind::OpNot => push_str(out, "OpNot"),
        TokenKind::OpBitAnd => push_str(out, "OpBitAnd"),
        TokenKind::OpBitOr => push_str(out, "OpBitOr"),
        TokenKind::OpXor => push_str(out, "OpXor"),
        TokenKind::OpBitNot => push_str(out, "OpBitNot"),
        TokenKind::Variable(_) => {
            push_str(out, "Variable(");
            push_str(out, quoted);
            push_str(out, ")");
        },
        TokenKind::Number(n) => {
            push_str(out, "Number(");
            push_int(out, *n as i64);
            push_str(out, ")");
        },
        TokenKind::String(_) => {
            push_str(out, "String(");
            push_str(out, quoted);
            push_str(out, ")");
        },
        TokenKind::EOF => push_str(out, "EOF"),
    }
    assert(final(out)@ =~= old(out)@ + described_text(*k, quoted@));
}

} // verus!
