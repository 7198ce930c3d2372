//! Turning source text into tokens. White space and `//` comments separate
//! tokens; identifiers are letters, digits and `_` not starting with a digit
//! (ten of them are keywords); numbers are decimal digits that fit `i32`;
//! strings are double-quoted, with `\n`, `\t`, `\r`, `\0` and a backslash
//! before any other character standing for that character; the operators take
//! two characters where they can. Lines and columns count from 1.
use vstd::prelude::*;
use vstd::string::StringExecFns;
use crate::token::{Token, TokenKind, kind_tag, TokModel, tok_model, toks_model};
use crate::text::{dec_text, push_char, push_str, push_dec};

verus! {

/// What stops tokenizing.
pub enum LexErrorKind {
    Unexpected(char),
    Unterminated,
    TooLarge,
}

/// A tokenizing error and where it is.
pub struct LexError {
    pub kind: LexErrorKind,
    pub line: nat,
    pub col: nat,
}

/// The message of a tokenizing error.
pub open spec fn lex_error_text(e: LexError) -> Seq<char> {
    let place = " at "@ + dec_text(e.line) + ":"@ + dec_text(e.col);
    match e.kind {
        LexErrorKind::Unexpected(c) => "Unexpected character '"@ + seq![c] + "'"@ + place,
        LexErrorKind::Unterminated => "Unterminated string"@ + place,
        LexErrorKind::TooLarge => "Number too large"@ + place,
    }
}

pub open spec fn is_blank(c: char) -> bool {
    c == ' ' || c == '\t' || c == '\r' || c == '\n'
}

pub open spec fn is_ident_start(c: char) -> bool {
    ('a' <= c && c <= 'z') || ('A' <= c && c <= 'Z') || c == '_'
}

pub open spec fn is_digit(c: char) -> bool {
    '0' <= c && c <= '9'
}

pub open spec fn is_ident_char(c: char) -> bool {
    is_ident_start(c) || is_digit(c)
}

/// The end of the run of identifier characters from `i`.
pub open spec fn ident_end(cs: Seq<char>, i: int) -> int
    decreases cs.len() - i,
{
    if 0 <= i < cs.len() && is_ident_char(cs[i]) {
        ident_end(cs, i + 1)
    } else {
        i
    }
}

/// The end of the run of digits from `i`.
pub open spec fn digits_end(cs: Seq<char>, i: int) -> int
    decreases cs.len() - i,
{
    if 0 <= i < cs.len() && is_digit(cs[i]) {
        digits_end(cs, i + 1)
    } else {
        i
    }
}

/// The position of the next newline from `i`, or the end.
pub open spec fn line_end(cs: Seq<char>, i: int) -> int
    decreases cs.len() - i,
{
    if 0 <= i < cs.len() && cs[i] != '\n' {
        line_end(cs, i + 1)
    } else {
        i
    }
}

/// A run from `i` ends between `i` and the end of the text.
pub proof fn lemma_ends(cs: Seq<char>, i: int)
    requires
        0 <= i <= cs.len(),
    ensures
        i <= ident_end(cs, i) <= cs.len(),
        i <= digits_end(cs, i) <= cs.len(),
        i <= line_end(cs, i) <= cs.len(),
    decreases cs.len() - i,
{
    if i < cs.len() {
        lemma_ends(cs, i + 1);
    }
}

/// The value of decimal digits.
pub open spec fn digits_value(ds: Seq<char>) -> nat
    decreases ds.len(),
{
    if ds.len() == 0 {
        0
    } else {
        digits_value(ds.drop_last()) * 10 + (ds.last() as nat - '0' as nat) as nat
    }
}

/// The character an escape stands for.
pub open spec fn unescape(c: char) -> char {
    if c == 'n' {
        '\n'
    } else if c == 't' {
        '\t'
    } else if c == 'r' {
        '\r'
    } else if c == '0' {
        '\0'
    } else {
        c
    }
}

/// Line and column after a character.
pub open spec fn advance(line: nat, col: nat, c: char) -> (nat, nat) {
    if c == '\n' {
        (line + 1, 1)
    } else {
        (line, col + 1)
    }
}

/// The rest of a string literal from `j`: its characters, the position after
/// the closing quote, and the line and column there; `None` if it does not
/// end.
pub open spec fn string_rest(cs: Seq<char>, j: int, line: nat, col: nat, acc: Seq<char>) -> Option<(Seq<char>, int, nat, nat)>
    decreases cs.len() - j,
{
    if j < 0 || j >= cs.len() {
        None
    } else if cs[j] == '"' {
        Some((acc, j + 1, line, col + 1))
    } else if cs[j] == '\\' {
        if j + 1 >= cs.len() {
            None
        } else {
            let (l1, c1) = advance(line, col, '\\');
            let (l2, c2) = advance(l1, c1, cs[j + 1]);
            string_rest(cs, j + 2, l2, c2, acc.push(unescape(cs[j + 1])))
        }
    } else {
        let (l1, c1) = advance(line, col, cs[j]);
        string_rest(cs, j + 1, l1, c1, acc.push(cs[j]))
    }
}

/// The rest of a string literal, where it ends, ends after its start and
/// within the text.
pub proof fn lemma_string_rest_end(cs: Seq<char>, j: int, line: nat, col: nat, acc: Seq<char>)
    ensures
        string_rest(cs, j, line, col, acc) matches Some((_, k, _, _)) ==> j < k <= cs.len(),
    decreases cs.len() - j,
{
    if 0 <= j < cs.len() && cs[j] != '"' {
        if cs[j] == '\\' {
            if j + 1 < cs.len() {
                let (l1, c1) = advance(line, col, '\\');
                let (l2, c2) = advance(l1, c1, cs[j + 1]);
                lemma_string_rest_end(cs, j + 2, l2, c2, acc.push(unescape(cs[j + 1])));
            }
        } else {
            let (l1, c1) = advance(line, col, cs[j]);
            lemma_string_rest_end(cs, j + 1, l1, c1, acc.push(cs[j]));
        }
    }
}

/// The kind of a keyword.
pub open spec fn keyword_tag(w: Seq<char>) -> Option<nat> {
    if w == "fn"@ {
        Some(0)
    } else if w == "let"@ {
        Some(1)
    } else if w == "return"@ {
        Some(2)
    } else if w == "if"@ {
        Some(3)
    } else if w == "else"@ {
        Some(4)
    } else if w == "while"@ {
        Some(5)
    } else if w == "out"@ {
        Some(6)
    } else if w == "in"@ {
        Some(7)
    } else if w == "i32"@ {
        Some(8)
    } else if w == "String"@ {
        Some(9)
    } else {
        None
    }
}

/// The kind of a two-character operator.
pub open spec fn op2_tag(c: char, d: char) -> Option<nat> {
    if c == '-' && d == '>' {
        Some(19)
    } else if c == '=' && d == '=' {
        Some(26)
    } else if c == '!' && d == '=' {
        Some(27)
    } else if c == '<' && d == '=' {
        Some(29)
    } else if c == '>' && d == '=' {
        Some(31)
    } else if c == '&' && d == '&' {
        Some(32)
    } else if c == '|' && d == '|' {
        Some(33)
    } else {
        None
    }
}

/// The kind of a one-character token.
pub open spec fn op1_tag(c: char) -> Option<nat> {
    if c == '(' {
        Some(10)
    } else if c == ')' {
        Some(11)
    } else if c == '{' {
        Some(12)
    } else if c == '}' {
        Some(13)
    } else if c == '[' {
        Some(14)
    } else if c == ']' {
        Some(15)
    } else if c == ',' {
        Some(16)
    } else if c == ':' {
        Some(17)
    } else if c == ';' {
        Some(18)
    } else if c == '=' {
        Some(20)
    } else if c == '+' {
        Some(21)
    } else if c == '-' {
        Some(22)
    } else if c == '*' {
        Some(23)
    } else if c == '/' {
        Some(24)
    } else if c == '%' {
        Some(25)
    } else if c == '<' {
        Some(28)
    } else if c == '>' {
        Some(30)
    } else if c == '!' {
        Some(34)
    } else if c == '&' {
        Some(35)
    } else if c == '|' {
        Some(36)
    } else if c == '^' {
        Some(37)
    } else if c == '~' {
        Some(38)
    } else {
        None
    }
}

/// A token of a kind that carries nothing.
pub open spec fn plain(tag: nat, line: nat, col: nat) -> TokModel {
    TokModel { tag: tag, text: Seq::empty(), num: 0, line: line, col: col }
}

/// `t` in front of the tokens that follow, or the error that follows.
pub open spec fn prepend(t: TokModel, rest: Result<Seq<TokModel>, LexError>) -> Result<Seq<TokModel>, LexError> {
    match rest {
        Ok(ts) => Ok(seq![t] + ts),
        Err(e) => Err(e),
    }
}

/// The tokens of `cs` from position `i`, which is at `line` and `col`, and the
/// end token; or the first error.
pub open spec fn scan(cs: Seq<char>, i: int, line: nat, col: nat) -> Result<Seq<TokModel>, LexError>
    decreases cs.len() - i,
{
    if i < 0 || i >= cs.len() {
        Ok(seq![plain(42, line, col)])
    } else {
        let c = cs[i];
        if is_blank(c) {
            let (l1, c1) = advance(line, col, c);
            scan(cs, i + 1, l1, c1)
        } else if c == '/' && i + 1 < cs.len() && cs[i + 1] == '/' {
            let j = line_end(cs, i);
            proof {
                lemma_ends(cs, i + 1);
                assert(line_end(cs, i) == line_end(cs, i + 1));
            }
            scan(cs, j, line, col + (j - i) as nat)
        } else if is_ident_start(c) {
            let j = ident_end(cs, i + 1);
            proof {
                lemma_ends(cs, i + 1);
            }
            let w = cs.subrange(i as int, j as int);
            let t = match keyword_tag(w) {
                Some(k) => plain(k, line, col),
                None => TokModel { tag: 39, text: w, num: 0, line: line, col: col },
            };
            prepend(t, scan(cs, j, line, col + (j - i) as nat))
        } else if is_digit(c) {
            let j = digits_end(cs, i + 1);
            proof {
                lemma_ends(cs, i + 1);
            }
            let v = digits_value(cs.subrange(i as int, j as int));
            if v > i32::MAX {
                Err(LexError { kind: LexErrorKind::TooLarge, line: line, col: col })
            } else {
                prepend(TokModel { tag: 40, text: Seq::empty(), num: v as i32, line: line, col: col },
                    scan(cs, j, line, col + (j - i) as nat))
            }
        } else if c == '"' {
            proof {
                lemma_string_rest_end(cs, i + 1, line, col + 1, Seq::empty());
            }
            match string_rest(cs, i + 1, line, col + 1, Seq::empty()) {
                None => Err(LexError { kind: LexErrorKind::Unterminated, line: line, col: col }),
                Some((s, j, l2, c2)) => prepend(TokModel { tag: 41, text: s, num: 0, line: line, col: col },
                    scan(cs, j, l2, c2)),
            }
        } else if i + 1 < cs.len() && op2_tag(c, cs[i + 1]) is Some {
            prepend(plain(op2_tag(c, cs[i + 1])->0, line, col), scan(cs, i + 2, line, col + 2))
        } else if op1_tag(c) is Some {
            prepend(plain(op1_tag(c)->0, line, col), scan(cs, i + 1, line, col + 1))
        } else {
            Err(LexError { kind: LexErrorKind::Unexpected(c), line: line, col: col })
        }
    }
}

/// The tokens of a text: `scan` from its start, line 1, column 1.
pub open spec fn lex_spec(cs: Seq<char>) -> Result<Seq<TokModel>, LexError> {
    scan(cs, 0, 1, 1)
}

/// `prefix` in front of the tokens of a result, or its error.
pub open spec fn prepend_all(prefix: Seq<TokModel>, rest: Result<Seq<TokModel>, LexError>) -> Result<Seq<TokModel>, LexError> {
    match rest {
        Ok(ts) => Ok(prefix + ts),
        Err(e) => Err(e),
    }
}

/// The characters of a text.
fn chars_of(src: &str) -> (cs: Vec<char>)
    ensures
        cs@ == src@,
{
    let mut cs: Vec<char> = Vec::new();
    broadcast use vstd::string::axiom_spec_iter;
    for c in it: src.chars()
        invariant
            it.seq() == src@,
            cs@ == src@.subrange(0, it.index() as int),
    {
        cs.push(c);
        assert(cs@ =~= src@.subrange(0, it.index() + 1));
    }
    assert(cs@ =~= src@);
    cs
}

/// A string holding `cs[i..j]`.
fn string_of(cs: &Vec<char>, i: usize, j: usize) -> (s: String)
    requires
        i <= j <= cs@.len(),
    ensures
        s@ == cs@.subrange(i as int, j as int),
{
    let mut s = String::new();
    let mut k: usize = i;
    while k < j
        invariant
            i <= k <= j <= cs@.len(),
            s@ == cs@.subrange(i as int, k as int),
        decreases j - k,
    {
        push_char(&mut s, cs[k]);
        assert(s@ =~= cs@.subrange(i as int, k + 1));
        k = k + 1;
    }
    s
}

fn is_ident_start_char(c: char) -> (b: bool)
    ensures
        b == is_ident_start(c),
{
    ('a' <= c && c <= 'z') || ('A' <= c && c <= 'Z') || c == '_'
}

fn is_digit_char(c: char) -> (b: bool)
    ensures
        b == is_digit(c),
{
    '0' <= c && c <= '9'
}

/// The kind of a token that carries nothing, by its number.
fn unit_kind(tag: u8) -> (k: TokenKind)
    requires
        tag <= 38 || tag == 42,
    ensures
        kind_tag(k) == tag,
        !(k is Variable) && !(k is Number) && !(k is String),
{
    match tag {
        0 => TokenKind::FnDecl,
        1 => TokenKind::Let,
        2 => TokenKind::Return,
        3 => TokenKind::If,
        4 => TokenKind::Else,
        5 => TokenKind::While,
        6 => TokenKind::Out,
        7 => TokenKind::In,
        8 => TokenKind::I32Decl,
        9 => TokenKind::StringType,
        10 => TokenKind::RoundBracketOpen,
        11 => TokenKind::RoundBracketClose,
        12 => TokenKind::CurlyBracketOpen,
        13 => TokenKind::CurlyBracketClose,
        14 => TokenKind::SquareBracketOpen,
        15 => TokenKind::SquareBracketClose,
        16 => TokenKind::Comma,
        17 => TokenKind::Colon,
        18 => TokenKind::Semicolon,
        19 => TokenKind::Arrow,
        20 => TokenKind::Assign,
        21 => TokenKind::OpAdd,
        22 => TokenKind::OpSub,
        23 => TokenKind::OpMul,
        24 => TokenKind::OpDiv,
        25 => TokenKind::OpRem,
        26 => TokenKind::OpEq,
        27 => TokenKind::OpNotEq,
        28 => TokenKind::OpLessThan,
        29 => TokenKind::OpLessOrEq,
        30 => TokenKind::OpGreaterThan,
        31 => TokenKind::OpGreaterOrEq,
        32 => TokenKind::OpAnd,
        33 => TokenKind::OpOr,
        34 => TokenKind::OpNot,
        35 => TokenKind::OpBitAnd,
        36 => TokenKind::OpBitOr,
        37 => TokenKind::OpXor,
        38 => TokenKind::OpBitNot,
        _ => TokenKind::EOF,
    }
}

/// Whether a string equals a literal.
fn same_text(s: &String, lit: &str) -> (b: bool)
    ensures
        b == (s@ == lit@),
{
    let l = String::from_str(lit);
    *s == l
}

/// The kind of a word: a keyword's kind, or an identifier.
fn word_kind(w: String) -> (k: TokenKind)
    ensures
        match keyword_tag(w@) {
            Some(t) => kind_tag(k) == t && !(k is Variable) && !(k is Number) && !(k is String),
            None => k matches TokenKind::Variable(v) && v@ == w@,
        },
{
    if same_text(&w, "fn") {
        unit_kind(0)
    } else if same_text(&w, "let") {
        unit_kind(1)
    } else if same_text(&w, "return") {
        unit_kind(2)
    } else if same_text(&w, "if") {
        unit_kind(3)
    } else if same_text(&w, "else") {
        unit_kind(4)
    } else if same_text(&w, "while") {
        unit_kind(5)
    } else if same_text(&w, "out") {
        unit_kind(6)
    } else if same_text(&w, "in") {
        unit_kind(7)
    } else if same_text(&w, "i32") {
        unit_kind(8)
    } else if same_text(&w, "String") {
        unit_kind(9)
    } else {
        TokenKind::Variable(w)
    }
}

/// The kind number of a two-character operator.
fn op2_kind(c: char, d: char) -> (t: Option<u8>)
    ensures
        match op2_tag(c, d) {
            Some(k) => t == Some(k as u8) && k <= 38,
            None => t is None,
        },
{
    if c == '-' && d == '>' {
        Some(19)
    } else if c == '=' && d == '=' {
        Some(26)
    } else if c == '!' && d == '=' {
        Some(27)
    } else if c == '<' && d == '=' {
        Some(29)
    } else if c == '>' && d == '=' {
        Some(31)
    } else if c == '&' && d == '&' {
        Some(32)
    } else if c == '|' && d == '|' {
        Some(33)
    } else {
        None
    }
}

/// The kind number of a one-character token.
fn op1_kind(c: char) -> (t: Option<u8>)
    ensures
        match op1_tag(c) {
            Some(k) => t == Some(k as u8) && k <= 38,
            None => t is None,
        },
{
    if c == '(' {
        Some(10)
    } else if c == ')' {
        Some(11)
    } else if c == '{' {
        Some(12)
    } else if c == '}' {
        Some(13)
    } else if c == '[' {
        Some(14)
    } else if c == ']' {
        Some(15)
    } else if c == ',' {
        Some(16)
    } else if c == ':' {
        Some(17)
    } else if c == ';' {
        Some(18)
    } else if c == '=' {
        Some(20)
    } else if c == '+' {
        Some(21)
    } else if c == '-' {
        Some(22)
    } else if c == '*' {
        Some(23)
    } else if c == '/' {
        Some(24)
    } else if c == '%' {
        Some(25)
    } else if c == '<' {
        Some(28)
    } else if c == '>' {
        Some(30)
    } else if c == '!' {
        Some(34)
    } else if c == '&' {
        Some(35)
    } else if c == '|' {
        Some(36)
    } else if c == '^' {
        Some(37)
    } else if c == '~' {
        Some(38)
    } else {
        None
    }
}

/// The rest of a string literal from `j0`: its text, the position after the
/// closing quote, and the line and column there.
fn scan_string(cs: &Vec<char>, j0: usize, l0: usize, c0: usize) -> (r: Option<(String, usize, usize, usize)>)
    requires
        j0 <= cs@.len(),
        cs@.len() + 2 <= usize::MAX,
        1 <= l0 <= j0 + 1,
        1 <= c0 <= j0 + 1,
    ensures
        match string_rest(cs@, j0 as int, l0 as nat, c0 as nat, Seq::empty()) {
            None => r is None,
            Some((s, k, l, c)) => r matches Some((rs, rk, rl, rc)) && rs@ == s && rk == k && rl == l && rc == c
                && 1 <= rl <= rk + 1 && 1 <= rc <= rk + 1 && j0 < rk <= cs@.len(),
        },
{
    let n = cs.len();
    let mut j = j0;
    let mut l = l0;
    let mut c = c0;
    let mut acc = String::new();
    while j < n
        invariant
            j0 <= j <= n,
            n == cs@.len(),
            n + 2 <= usize::MAX,
            1 <= l <= j + 1,
            1 <= c <= j + 1,
            string_rest(cs@, j0 as int, l0 as nat, c0 as nat, Seq::empty())
                == string_rest(cs@, j as int, l as nat, c as nat, acc@),
        decreases n - j,
    {
        let d = cs[j];
        if d == '"' {
            return Some((acc, j + 1, l, c + 1));
        } else if d == '\\' {
            if j + 1 >= n {
                return None;
            }
            let e = cs[j + 1];
            let u = if e == 'n' {
                '\n'
            } else if e == 't' {
                '\t'
            } else if e == 'r' {
                '\r'
            } else if e == '0' {
                '\0'
            } else {
                e
            };
            push_char(&mut acc, u);
            c = c + 1;
            if e == '\n' {
                l = l + 1;
                c = 1;
            } else {
                c = c + 1;
            }
            j = j + 2;
        } else {
            push_char(&mut acc, d);
            if d == '\n' {
                l = l + 1;
                c = 1;
            } else {
                c = c + 1;
            }
            j = j + 1;
        }
    }
    None
}

/// The message of a tokenizing error.
fn lex_error_message(kind: LexErrorKind, line: usize, col: usize) -> (m: String)
    ensures
        m@ == lex_error_text(LexError { kind: kind, line: line as nat, col: col as nat }),
{
    let mut m = String::new();
    match kind {
        LexErrorKind::Unexpected(c) => {
            push_str(&mut m, "Unexpected character '");
            push_char(&mut m, c);
            push_str(&mut m, "'");
        },
        LexErrorKind::Unterminated => push_str(&mut m, "Unterminated string"),
        LexErrorKind::TooLarge => push_str(&mut m, "Number too large"),
    }
    push_str(&mut m, " at ");
    push_dec(&mut m, line as u64);
    push_str(&mut m, ":");
    push_dec(&mut m, col as u64);
    assert(m@ =~= lex_error_text(LexError { kind: kind, line: line as nat, col: col as nat }));
    m
}

/// Appends a token and keeps the tokens' model in step.
fn push_token(out: &mut Vec<Token>, t: Token)
    ensures
        final(out)@ == old(out)@.push(t),
        toks_model(final(out)@) == toks_model(old(out)@).push(tok_model(t)),
{
    out.push(t);
    assert(toks_model(out@) =~= toks_model(old(out)@).push(tok_model(t)));
}

/// The value of the digits `cs[i..j]`, capped at 2^31.
fn digits_value_capped(cs: &Vec<char>, i: usize, j: usize) -> (v: u64)
    requires
        i <= j <= cs@.len(),
        forall|k: int| i <= k < j ==> is_digit(#[trigger] cs@[k]),
    ensures
        v == (if digits_value(cs@.subrange(i as int, j as int)) < 0x8000_0000 {
            digits_value(cs@.subrange(i as int, j as int))
        } else {
            0x8000_0000
        }),
{
    let mut v: u64 = 0;
    let mut k: usize = i;
    assert(cs@.subrange(i as int, i as int) =~= Seq::<char>::empty());
    while k < j
        invariant
            i <= k <= j <= cs@.len(),
            forall|m: int| i <= m < j ==> is_digit(#[trigger] cs@[m]),
            v == (if digits_value(cs@.subrange(i as int, k as int)) < 0x8000_0000 {
                digits_value(cs@.subrange(i as int, k as int))
            } else {
                0x8000_0000
            }),
        decreases j - k,
    {
        let ghost prev = digits_value(cs@.subrange(i as int, k as int));
        assert(cs@.subrange(i as int, k + 1).drop_last() =~= cs@.subrange(i as int, k as int));
        assert(is_digit(cs@[k as int]));
        let d = (cs[k] as u32 - '0' as u32) as u64;
        let w = v * 10 + d;
        v = if w < 0x8000_0000 { w } else { 0x8000_0000 };
        k = k + 1;
    }
    v
}


/// One step of tokenizing at a position: white space or a comment skipped,
/// a token read, or an error.
enum Step {
    Skip(usize, usize, usize),
    Tok(Token, usize, usize, usize),
    Fail(String),
}

/// The bounds that positions keep while tokenizing.
pub open spec fn pos_ok(n: nat, i: int, line: nat, col: nat) -> bool {
    &&& 0 <= i <= n
    &&& n + 2 <= usize::MAX
    &&& 1 <= line <= i + 1
    &&& 1 <= col <= i + 1
}

/// A step did what `scan` says at position `i`.
spec fn step_ok(cs: Seq<char>, i: int, line: nat, col: nat, r: Step) -> bool {
    match r {
        Step::Skip(j, l, c) => scan(cs, i, line, col) == scan(cs, j as int, l as nat, c as nat) && i < j
            && pos_ok(cs.len(), j as int, l as nat, c as nat),
        Step::Tok(t, j, l, c) => scan(cs, i, line, col) == prepend(tok_model(t), scan(cs, j as int, l as nat, c as nat))
            && i < j && pos_ok(cs.len(), j as int, l as nat, c as nat),
        Step::Fail(m) => scan(cs, i, line, col) matches Err(e) && m@ == lex_error_text(e),
    }
}

/// Skips a `//` comment up to the newline.
fn skip_comment(cs: &Vec<char>, i: usize, line: usize, col: usize) -> (r: Step)
    requires
        pos_ok(cs@.len(), i as int, line as nat, col as nat),
        i + 1 < cs@.len(),
        cs@[i as int] == '/' && cs@[i + 1] == '/',
    ensures
        step_ok(cs@, i as int, line as nat, col as nat, r),
        r is Skip,
{
    let n = cs.len();
    let mut j = i + 1;
    proof {
        lemma_ends(cs@, i + 1);
    }
    while j < n && cs[j] != '\n'
        invariant
            i + 1 <= j <= n,
            n == cs@.len(),
            line_end(cs@, i as int) == line_end(cs@, j as int),
        decreases n - j,
    {
        j = j + 1;
    }
    Step::Skip(j, line, col + (j - i))
}

/// Reads a keyword or an identifier.
fn word_token(cs: &Vec<char>, i: usize, line: usize, col: usize) -> (r: Step)
    requires
        pos_ok(cs@.len(), i as int, line as nat, col as nat),
        i < cs@.len(),
        is_ident_start(cs@[i as int]),
        !is_blank(cs@[i as int]),
        !(cs@[i as int] == '/'),
    ensures
        step_ok(cs@, i as int, line as nat, col as nat, r),
{
    let n = cs.len();
    let mut j = i + 1;
    while j < n && (is_ident_start_char(cs[j]) || is_digit_char(cs[j]))
        invariant
            i + 1 <= j <= n,
            n == cs@.len(),
            ident_end(cs@, i + 1) == ident_end(cs@, j as int),
        decreases n - j,
    {
        j = j + 1;
    }
    let w = string_of(cs, i, j);
    let ghost wv = w@;
    let k = word_kind(w);
    let t = Token { kind: k, line: line, col: col };
    proof {
        let m = match keyword_tag(wv) {
            Some(kt) => plain(kt, line as nat, col as nat),
            None => TokModel { tag: 39, text: wv, num: 0, line: line as nat, col: col as nat },
        };
        assert(tok_model(t) == m);
    }
    Step::Tok(t, j, line, col + (j - i))
}

/// Reads a number.
fn number_token(cs: &Vec<char>, i: usize, line: usize, col: usize) -> (r: Step)
    requires
        pos_ok(cs@.len(), i as int, line as nat, col as nat),
        i < cs@.len(),
        is_digit(cs@[i as int]),
    ensures
        step_ok(cs@, i as int, line as nat, col as nat, r),
{
    let n = cs.len();
    let mut j = i + 1;
    while j < n && is_digit_char(cs[j])
        invariant
            i + 1 <= j <= n,
            n == cs@.len(),
            forall|m: int| i <= m < j ==> is_digit(#[trigger] cs@[m]),
            digits_end(cs@, i + 1) == digits_end(cs@, j as int),
        decreases n - j,
    {
        j = j + 1;
    }
    let v = digits_value_capped(cs, i, j);
    if v > 0x7FFF_FFFF {
        return Step::Fail(lex_error_message(LexErrorKind::TooLarge, line, col));
    }
    let t = Token { kind: TokenKind::Number(v as i32), line: line, col: col };
    assert(tok_model(t) == TokModel { tag: 40, text: Seq::empty(), num: v as i32, line: line as nat, col: col as nat });
    Step::Tok(t, j, line, col + (j - i))
}

/// Reads a string literal.
fn string_token(cs: &Vec<char>, i: usize, line: usize, col: usize) -> (r: Step)
    requires
        pos_ok(cs@.len(), i as int, line as nat, col as nat),
        i < cs@.len(),
        cs@[i as int] == '"',
    ensures
        step_ok(cs@, i as int, line as nat, col as nat, r),
{
    match scan_string(cs, i + 1, line, col + 1) {
        None => Step::Fail(lex_error_message(LexErrorKind::Unterminated, line, col)),
        Some((s, j, l2, c2)) => {
            let ghost sv = s@;
            let t = Token { kind: TokenKind::String(s), line: line, col: col };
            assert(tok_model(t) == TokModel { tag: 41, text: sv, num: 0, line: line as nat, col: col as nat });
            Step::Tok(t, j, l2, c2)
        },
    }
}

/// Reads an operator or a bracket, two characters where they make one.
fn operator_token(cs: &Vec<char>, i: usize, line: usize, col: usize) -> (r: Step)
    requires
        pos_ok(cs@.len(), i as int, line as nat, col as nat),
        i < cs@.len(),
        !is_blank(cs@[i as int]),
        !(cs@[i as int] == '/' && i + 1 < cs@.len() && cs@[i + 1] == '/'),
        !is_ident_start(cs@[i as int]),
        !is_digit(cs@[i as int]),
        cs@[i as int] != '"',
    ensures
        step_ok(cs@, i as int, line as nat, col as nat, r),
{
    let n = cs.len();
    let c = cs[i];
    let two = if i + 1 < n { op2_kind(c, cs[i + 1]) } else { None };
    match two {
        Some(tag) => {
            let t = Token { kind: unit_kind(tag), line: line, col: col };
            assert(tok_model(t) == plain(tag as nat, line as nat, col as nat));
            Step::Tok(t, i + 2, line, col + 2)
        },
        None => match op1_kind(c) {
            Some(tag) => {
                let t = Token { kind: unit_kind(tag), line: line, col: col };
                assert(tok_model(t) == plain(tag as nat, line as nat, col as nat));
                Step::Tok(t, i + 1, line, col + 1)
            },
            None => Step::Fail(lex_error_message(LexErrorKind::Unexpected(c), line, col)),
        },
    }
}

/// One step of tokenizing at position `i`.
fn next_step(cs: &Vec<char>, i: usize, line: usize, col: usize) -> (r: Step)
    requires
        pos_ok(cs@.len(), i as int, line as nat, col as nat),
        i < cs@.len(),
    ensures
        step_ok(cs@, i as int, line as nat, col as nat, r),
{
    let n = cs.len();
    let c = cs[i];
    if c == ' ' || c == '\t' || c == '\r' || c == '\n' {
        if c == '\n' {
            Step::Skip(i + 1, line + 1, 1)
        } else {
            Step::Skip(i + 1, line, col + 1)
        }
    } else if c == '/' && i + 1 < n && cs[i + 1] == '/' {
        skip_comment(cs, i, line, col)
    } else if is_ident_start_char(c) {
        word_token(cs, i, line, col)
    } else if is_digit_char(c) {
        number_token(cs, i, line, col)
    } else if c == '"' {
        string_token(cs, i, line, col)
    } else {
        operator_token(cs, i, line, col)
    }
}

/// The tokens of a text, ending with the end token; or the message of the
/// first error (see `scan`).
pub fn lex(src: &str) -> (r: Result<Vec<Token>, String>)
    requires
        src@.len() + 2 <= usize::MAX,
    ensures
        match lex_spec(src@) {
            Ok(ts) => r matches Ok(v) && toks_model(v@) == ts && v@.len() > 0 && v@.last().kind is EOF,
            Err(e) => r matches Err(m) && m@ == lex_error_text(e),
        },
{
    let cs = chars_of(src);
    let n = cs.len();
    let mut out: Vec<Token> = Vec::new();
    let mut i: usize = 0;
    let mut line: usize = 1;
    let mut col: usize = 1;
    assert(toks_model(out@) =~= Seq::<TokModel>::empty());
    assert(prepend_all(Seq::empty(), scan(cs@, 0, 1, 1)) == scan(cs@, 0, 1, 1)) by {
        match scan(cs@, 0, 1, 1) {
            Ok(ts) => {
                assert(Seq::<TokModel>::empty() + ts =~= ts);
            },
            Err(_) => {},
        }
    }
    while i < n
        invariant
            cs@ == src@,
            n == cs@.len(),
            pos_ok(n as nat, i as int, line as nat, col as nat),
            lex_spec(cs@) == prepend_all(toks_model(out@), scan(cs@, i as int, line as nat, col as nat)),
        decreases n - i,
    {
        match next_step(&cs, i, line, col) {
            Step::Skip(j, l, c) => {
                i = j;
                line = l;
                col = c;
            },
            Step::Tok(t, j, l, c) => {
                let ghost before = toks_model(out@);
                push_token(&mut out, t);
                proof {
                    match scan(cs@, j as int, l as nat, c as nat) {
                        Ok(ts) => {
                            assert(before + (seq![tok_model(t)] + ts) =~= toks_model(out@) + ts);
                        },
                        Err(_) => {},
                    }
                }
                i = j;
                line = l;
                col = c;
            },
            Step::Fail(m) => {
                return Err(m);
            },
        }
    }
    let ghost before = toks_model(out@);
    let t = Token { kind: TokenKind::EOF, line: line, col: col };
    push_token(&mut out, t);
    assert(tok_model(t) == plain(42, line as nat, col as nat));
    assert(before + seq![plain(42, line as nat, col as nat)] =~= toks_model(out@));
    Ok(out)
}

} // verus!
