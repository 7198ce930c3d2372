//! The syntax tree as indented text: one node per line, two spaces of
//! indentation per level.
use vstd::prelude::*;
use vstd::string::StrSliceExecFns;
use crate::ast::{Type, UnaryOp, BinaryOp, Expr, Statement, Block, FunctionDecl, Program, AExpr, AStmt, AParam, AFunc, AProgram, exprs_view, stmts_view, params_view, funcs_view, lemma_exprs_view, lemma_stmts_view};
use crate::text::{dec_text, int_text, spaces, join, lemma_join_push, push_char, push_str, push_dec, push_int};

verus! {

/// The text of a type: `i32`, `String` or `[inner; n]`.
pub open spec fn type_text(t: Type) -> Seq<char>
    decreases t,
{
    match t {
        Type::I32 => "i32"@,
        Type::StringType => "String"@,
        Type::Array(inner, n) => "["@ + type_text(*inner) + "; "@ + dec_text(n as nat) + "]"@,
    }
}

/// The name of a unary operator.
pub open spec fn unary_text(op: UnaryOp) -> Seq<char> {
    match op {
        UnaryOp::Neg => "Neg"@,
        UnaryOp::Not => "Not"@,
        UnaryOp::BitNot => "BitNot"@,
    }
}

/// The name of a binary operator.
pub open spec fn binary_text(op: BinaryOp) -> Seq<char> {
    match op {
        BinaryOp::Add => "Add"@,
        BinaryOp::Sub => "Sub"@,
        BinaryOp::Mul => "Mul"@,
        BinaryOp::Div => "Div"@,
        BinaryOp::Rem => "Rem"@,
        BinaryOp::Eq => "Eq"@,
        BinaryOp::NotEq => "NotEq"@,
        BinaryOp::Less => "Less"@,
        BinaryOp::LessEq => "LessEq"@,
        BinaryOp::Greater => "Greater"@,
        BinaryOp::GreaterEq => "GreaterEq"@,
        BinaryOp::And => "And"@,
        BinaryOp::Or => "Or"@,
        BinaryOp::BitAnd => "BitAnd"@,
        BinaryOp::BitOr => "BitOr"@,
        BinaryOp::Xor => "Xor"@,
    }
}

/// A string literal's character as it is shown: newline, tab, backslash and
/// double quote are escaped with a backslash.
pub open spec fn escaped_char(c: char) -> Seq<char> {
    if c == '\n' {
        "\\n"@
    } else if c == '\t' {
        "\\t"@
    } else if c == '\\' {
        "\\\\"@
    } else if c == '"' {
        "\\\""@
    } else {
        seq![c]
    }
}

/// A string literal's characters as they are shown.
pub open spec fn escaped_text(s: Seq<char>) -> Seq<char>
    decreases s.len(),
{
    if s.len() == 0 {
        Seq::empty()
    } else {
        escaped_text(s.drop_last()) + escaped_char(s.last())
    }
}

/// The indentation of a level: two spaces per level.
pub open spec fn indent_text(level: nat) -> Seq<char> {
    spaces(2 * level)
}

/// The lines of an expression at a level of indentation. A grouping shows
/// only its inner expression, at the same level.
pub open spec fn expr_text(e: AExpr, level: nat) -> Seq<char>
    decreases e,
{
    let ind = indent_text(level);
    match e {
        AExpr::Number(n) => ind + "Number "@ + int_text(n as int) + "\n"@,
        AExpr::Str(s) => ind + "String \""@ + escaped_text(s) + "\"\n"@,
        AExpr::Variable(name) => ind + "Variable "@ + name + "\n"@,
        AExpr::Unary(op, inner) => ind + unary_text(op) + "\n"@ + expr_text(*inner, level + 1),
        AExpr::Binary(l, op, r) => ind + binary_text(op) + "\n"@ + expr_text(*l, level + 1) + expr_text(*r, level + 1),
        AExpr::Call(name, args) => ind + "FunctionCall "@ + name + "\n"@ + exprs_text(args, level + 1),
        AExpr::ArrayInit(elems) => ind + "ArrayInit\n"@ + exprs_text(elems, level + 1),
        AExpr::ArrayAccess(name, index) => ind + "ArrayAccess "@ + name + "\n"@ + expr_text(*index, level + 1),
        AExpr::Grouping(inner) => expr_text(*inner, level),
    }
}

/// The lines of a sequence of expressions, one after the other.
pub open spec fn exprs_text(s: Seq<AExpr>, level: nat) -> Seq<char>
    decreases s,
{
    if s.len() == 0 {
        Seq::empty()
    } else {
        exprs_text(s.subrange(0, s.len() - 1), level) + expr_text(s[s.len() - 1], level)
    }
}

/// The lines of a block: a `Body` line, then its statements one level deeper.
pub open spec fn block_text(stmts: Seq<AStmt>, level: nat) -> Seq<char>
    decreases stmts, 1nat,
{
    indent_text(level) + "Body\n"@ + stmts_text(stmts, level + 1)
}

/// The lines of a statement at a level of indentation.
pub open spec fn stmt_text(s: AStmt, level: nat) -> Seq<char>
    decreases s, 0nat,
{
    let ind = indent_text(level);
    let ind1 = indent_text(level + 1);
    match s {
        AStmt::Let(name, typ, e) => ind + "Let "@ + name + " : "@ + type_text(typ) + "\n"@ + expr_text(e, level + 1),
        AStmt::Assign(name, index, e) => match index {
            Some(idx) => ind + "Assign "@ + name + "[]\n"@ + expr_text(idx, level + 1) + expr_text(e, level + 1),
            None => ind + "Assign "@ + name + "\n"@ + expr_text(e, level + 1),
        },
        AStmt::If(c, t, els) => ind + "If\n"@ + ind1 + "Cond\n"@ + expr_text(c, level + 2) + ind1 + "Then\n"@
            + block_text(t, level + 2) + match els {
            Some(eb) => ind1 + "Else\n"@ + block_text(eb, level + 2),
            None => Seq::empty(),
        },
        AStmt::While(c, body) => ind + "While\n"@ + ind1 + "Cond\n"@ + expr_text(c, level + 2) + block_text(body, level + 1),
        AStmt::Return(e) => ind + "Return\n"@ + match e {
            Some(x) => expr_text(x, level + 1),
            None => Seq::empty(),
        },
        AStmt::Expr(e) => ind + "ExprStmt\n"@ + expr_text(e, level + 1),
    }
}

/// The lines of a sequence of statements, one after the other.
pub open spec fn stmts_text(s: Seq<AStmt>, level: nat) -> Seq<char>
    decreases s, 0nat,
{
    if s.len() == 0 {
        Seq::empty()
    } else {
        stmts_text(s.subrange(0, s.len() - 1), level) + stmt_text(s[s.len() - 1], level)
    }
}

/// The text of a parameter: `name: type`.
pub open spec fn param_text(p: AParam) -> Seq<char> {
    p.name + ": "@ + type_text(p.typ)
}

/// The texts of the parameters of a function.
pub open spec fn param_texts(ps: Seq<AParam>) -> Seq<Seq<char>> {
    Seq::new(ps.len(), |i: int| param_text(ps[i]))
}

/// The lines of a function: its header with the parameters joined by ", " and
/// the return type if it has one, then its body one level deeper.
pub open spec fn func_text(f: AFunc, level: nat) -> Seq<char> {
    indent_text(level) + "FunctionDecl "@ + f.name + " ("@ + join(param_texts(f.params), ", "@) + ")"@
        + match f.return_type {
        Some(t) => " -> "@ + type_text(t),
        None => Seq::empty(),
    } + "\n"@ + block_text(f.body, level + 1)
}

/// The lines of a sequence of functions, one after the other.
pub open spec fn funcs_text(s: Seq<AFunc>, level: nat) -> Seq<char>
    decreases s.len(),
{
    if s.len() == 0 {
        Seq::empty()
    } else {
        funcs_text(s.drop_last(), level) + func_text(s.last(), level)
    }
}

/// The text of a program: a `Program` line, then the global statements, then
/// the functions, each one level deep.
pub open spec fn program_text(p: AProgram) -> Seq<char> {
    "Program\n"@ + stmts_text(p.statements, 1) + funcs_text(p.functions, 1)
}

/// How many levels an expression's lines go below its own.
pub open spec fn expr_depth(e: AExpr) -> nat
    decreases e,
{
    match e {
        AExpr::Unary(_, inner) => 1 + expr_depth(*inner),
        AExpr::Binary(l, _, r) => 1 + if expr_depth(*l) >= expr_depth(*r) { expr_depth(*l) } else { expr_depth(*r) },
        AExpr::Call(_, args) => 1 + exprs_depth(args),
        AExpr::ArrayInit(elems) => 1 + exprs_depth(elems),
        AExpr::ArrayAccess(_, index) => 1 + expr_depth(*index),
        AExpr::Grouping(inner) => 1 + expr_depth(*inner),
        _ => 0,
    }
}

/// The deepest of a sequence of expressions.
pub open spec fn exprs_depth(s: Seq<AExpr>) -> nat
    decreases s,
{
    if s.len() == 0 {
        0
    } else {
        let a = exprs_depth(s.subrange(0, s.len() - 1));
        let b = expr_depth(s[s.len() - 1]);
        if a >= b { a } else { b }
    }
}

/// How many levels a statement's lines go below its own.
pub open spec fn stmt_depth(s: AStmt) -> nat
    decreases s,
{
    match s {
        AStmt::Let(_, _, e) => 1 + expr_depth(e),
        AStmt::Assign(_, index, e) => 1 + match index {
            Some(idx) => if expr_depth(idx) >= expr_depth(e) { expr_depth(idx) } else { expr_depth(e) },
            None => expr_depth(e),
        },
        AStmt::If(c, t, els) => 3 + {
            let a = expr_depth(c);
            let b = stmts_depth(t);
            let d = match els {
                Some(eb) => stmts_depth(eb),
                None => 0,
            };
            if a >= b && a >= d { a } else if b >= d { b } else { d }
        },
        AStmt::While(c, body) => 3 + if expr_depth(c) >= stmts_depth(body) { expr_depth(c) } else { stmts_depth(body) },
        AStmt::Return(e) => 1 + match e {
            Some(x) => expr_depth(x),
            None => 0,
        },
        AStmt::Expr(e) => 1 + expr_depth(e),
    }
}

/// The deepest of a sequence of statements.
pub open spec fn stmts_depth(s: Seq<AStmt>) -> nat
    decreases s,
{
    if s.len() == 0 {
        0
    } else {
        let a = stmts_depth(s.subrange(0, s.len() - 1));
        let b = stmt_depth(s[s.len() - 1]);
        if a >= b { a } else { b }
    }
}

/// The deepest nesting of a program's text.
pub open spec fn program_depth(p: AProgram) -> nat {
    let a = stmts_depth(p.statements);
    let b = funcs_depth(p.functions);
    if a >= b { a } else { b }
}

/// The deepest of a sequence of functions.
pub open spec fn funcs_depth(s: Seq<AFunc>) -> nat
    decreases s.len(),
{
    if s.len() == 0 {
        0
    } else {
        let a = funcs_depth(s.drop_last());
        let b = 2 + stmts_depth(s.last().body);
        if a >= b { a } else { b }
    }
}

/// The deepest level that `format_ast` reaches stays below this.
pub const MAX_FORMAT_DEPTH: usize = 0x1000_0000;

proof fn lemma_exprs_depth(s: Seq<AExpr>)
    ensures
        forall|i: int| 0 <= i < s.len() ==> expr_depth(#[trigger] s[i]) <= exprs_depth(s),
    decreases s.len(),
{
    if s.len() > 0 {
        lemma_exprs_depth(s.subrange(0, s.len() - 1));
        assert forall|i: int| 0 <= i < s.len() implies expr_depth(#[trigger] s[i]) <= exprs_depth(s) by {
            if i < s.len() - 1 {
                assert(s.subrange(0, s.len() - 1)[i] == s[i]);
            }
        }
    }
}

proof fn lemma_exprs_text_push(s: Seq<AExpr>, e: AExpr, level: nat)
    ensures
        exprs_text(s.push(e), level) == exprs_text(s, level) + expr_text(e, level),
{
    assert(s.push(e).subrange(0, s.len() as int) =~= s);
}

proof fn lemma_stmts_text_push(s: Seq<AStmt>, e: AStmt, level: nat)
    ensures
        stmts_text(s.push(e), level) == stmts_text(s, level) + stmt_text(e, level),
{
    assert(s.push(e).subrange(0, s.len() as int) =~= s);
}

proof fn lemma_stmts_depth(s: Seq<AStmt>)
    ensures
        forall|i: int| 0 <= i < s.len() ==> stmt_depth(#[trigger] s[i]) <= stmts_depth(s),
    decreases s.len(),
{
    if s.len() > 0 {
        lemma_stmts_depth(s.subrange(0, s.len() - 1));
        assert forall|i: int| 0 <= i < s.len() implies stmt_depth(#[trigger] s[i]) <= stmts_depth(s) by {
            if i < s.len() - 1 {
                assert(s.subrange(0, s.len() - 1)[i] == s[i]);
            }
        }
    }
}

/// Appends the indentation of a level.
pub fn indent(out: &mut String, level: usize)
    ensures
        final(out)@ == old(out)@ + indent_text(level as nat),
{
    let mut i: usize = 0;
    while i < level
        invariant
            i <= level,
            out@ == old(out)@ + spaces(2 * i as nat),
        decreases level - i,
    {
        push_str(out, "  ");
        proof {
            reveal_strlit("  ");
        }
        i = i + 1;
        assert(out@ =~= old(out)@ + spaces(2 * i as nat));
    }
}

/// The text of a type.
pub fn fmt_type(typ: &Type) -> (s: String)
    ensures
        s@ == type_text(*typ),
    decreases typ,
{
    match typ {
        Type::I32 => {
            let mut s = String::new();
            push_str(&mut s, "i32");
            s
        },
        Type::StringType => {
            let mut s = String::new();
            push_str(&mut s, "String");
            s
        },
        Type::Array(inner, size) => {
            let mut s = String::new();
            push_str(&mut s, "[");
            let t = fmt_type(inner);
            push_str(&mut s, t.as_str());
            push_str(&mut s, "; ");
            push_dec(&mut s, *size as u64);
            push_str(&mut s, "]");
            s
        },
    }
}

/// The name of a binary operator.
pub fn fmt_binary_op(op: &BinaryOp) -> (s: &'static str)
    ensures
        s@ == binary_text(*op),
{
    match op {
        BinaryOp::Add => "Add",
        BinaryOp::Sub => "Sub",
        BinaryOp::Mul => "Mul",
        BinaryOp::Div => "Div",
        BinaryOp::Rem => "Rem",
        BinaryOp::Eq => "Eq",
        BinaryOp::NotEq => "NotEq",
        BinaryOp::Less => "Less",
        BinaryOp::LessEq => "LessEq",
        BinaryOp::Greater => "Greater",
        BinaryOp::GreaterEq => "GreaterEq",
        BinaryOp::And => "And",
        BinaryOp::Or => "Or",
        BinaryOp::BitAnd => "BitAnd",
        BinaryOp::BitOr => "BitOr",
        BinaryOp::Xor => "Xor",
    }
}

/// The name of a unary operator.
pub fn fmt_unary_op(op: &UnaryOp) -> (s: &'static str)
    ensures
        s@ == unary_text(*op),
{
    match op {
        UnaryOp::Neg => "Neg",
        UnaryOp::Not => "Not",
        UnaryOp::BitNot => "BitNot",
    }
}

/// Appends a string literal's characters, escaped.
fn push_escaped(out: &mut String, s: &String)
    ensures
        final(out)@ == old(out)@ + escaped_text(s@),
{
    let n = s.as_str().unicode_len();
    let mut i: usize = 0;
    while i < n
        invariant
            n == s@.len(),
            i <= n,
            out@ == old(out)@ + escaped_text(s@.subrange(0, i as int)),
        decreases n - i,
    {
        let c = s.as_str().get_char(i);
        if c == '\n' {
            push_str(out, "\\n");
        } else if c == '\t' {
            push_str(out, "\\t");
        } else if c == '\\' {
            push_str(out, "\\\\");
        } else if c == '"' {
            push_str(out, "\\\"");
        } else {
            push_char(out, c);
        }
        assert(s@.subrange(0, i + 1).drop_last() =~= s@.subrange(0, i as int));
        i = i + 1;
        assert(out@ =~= old(out)@ + escaped_text(s@.subrange(0, i as int)));
    }
    assert(s@.subrange(0, n as int) =~= s@);
}

/// Appends the lines of an expression.
pub fn fmt_expr(out: &mut String, expr: &Expr, level: usize)
    requires
        level + expr_depth(expr@) < MAX_FORMAT_DEPTH,
    ensures
        final(out)@ == old(out)@ + expr_text(expr@, level as nat),
    decreases expr,
{
    match expr {
        Expr::Number(n) => {
            indent(out, level);
            push_str(out, "Number ");
            push_int(out, *n as i64);
            push_str(out, "\n");
        },
        Expr::String(s) => {
            indent(out, level);
            push_str(out, "String \"");
            push_escaped(out, s);
            push_str(out, "\"\n");
        },
        Expr::Variable(name) => {
            indent(out, level);
            push_str(out, "Variable ");
            push_str(out, name.as_str());
            push_str(out, "\n");
        },
        Expr::UnaryOp(op, inner) => {
            indent(out, level);
            push_str(out, fmt_unary_op(op));
            push_str(out, "\n");
            fmt_expr(out, inner, level + 1);
        },
        Expr::BinaryOp(left, op, right) => {
            indent(out, level);
            push_str(out, fmt_binary_op(op));
            push_str(out, "\n");
            fmt_expr(out, left, level + 1);
            fmt_expr(out, right, level + 1);
        },
        Expr::FunctionCall(name, args) => {
            indent(out, level);
            push_str(out, "FunctionCall ");
            push_str(out, name.as_str());
            push_str(out, "\n");
            fmt_exprs(out, args, level + 1);
        },
        Expr::ArrayInit(elems) => {
            indent(out, level);
            push_str(out, "ArrayInit\n");
            fmt_exprs(out, elems, level + 1);
        },
        Expr::ArrayAccess(name, index) => {
            indent(out, level);
            push_str(out, "ArrayAccess ");
            push_str(out, name.as_str());
            push_str(out, "\n");
            fmt_expr(out, index, level + 1);
        },
        Expr::Grouping(inner) => {
            fmt_expr(out, inner, level);
        },
    }
    assert(final(out)@ =~= old(out)@ + expr_text(expr@, level as nat));
}

/// Appends the lines of each expression of a list.
fn fmt_exprs(out: &mut String, exprs: &Vec<Expr>, level: usize)
    requires
        level + exprs_depth(exprs_view(exprs@)) < MAX_FORMAT_DEPTH,
    ensures
        final(out)@ == old(out)@ + exprs_text(exprs_view(exprs@), level as nat),
    decreases exprs,
{
    proof {
        lemma_exprs_view(exprs@);
        lemma_exprs_depth(exprs_view(exprs@));
    }
    let ghost all = exprs_view(exprs@);
    let mut i: usize = 0;
    assert(all.subrange(0, 0) =~= Seq::<AExpr>::empty());
    while i < exprs.len()
        invariant
            i <= exprs@.len(),
            all == exprs_view(exprs@),
            all.len() == exprs@.len(),
            forall|k: int| 0 <= k < exprs@.len() ==> #[trigger] all[k] == exprs@[k]@,
            forall|k: int| 0 <= k < all.len() ==> expr_depth(#[trigger] all[k]) <= exprs_depth(all),
            level + exprs_depth(all) < MAX_FORMAT_DEPTH,
            out@ == old(out)@ + exprs_text(all.subrange(0, i as int), level as nat),
        decreases exprs@.len() - i,
    {
        assert(expr_depth(all[i as int]) <= exprs_depth(all));
        fmt_expr(out, &exprs[i], level);
        proof {
            lemma_exprs_text_push(all.subrange(0, i as int), all[i as int], level as nat);
            assert(all.subrange(0, i as int).push(all[i as int]) =~= all.subrange(0, i + 1));
        }
        i = i + 1;
    }
    assert(all.subrange(0, i as int) =~= all);
}

proof fn lemma_funcs_depth(s: Seq<AFunc>)
    ensures
        forall|i: int| 0 <= i < s.len() ==> 2 + stmts_depth(#[trigger] s[i].body) <= funcs_depth(s),
    decreases s.len(),
{
    if s.len() > 0 {
        lemma_funcs_depth(s.drop_last());
        assert forall|i: int| 0 <= i < s.len() implies 2 + stmts_depth(#[trigger] s[i].body) <= funcs_depth(s) by {
            if i < s.len() - 1 {
                assert(s.drop_last()[i] == s[i]);
            }
        }
    }
}

proof fn lemma_funcs_text_push(s: Seq<AFunc>, f: AFunc, level: nat)
    ensures
        funcs_text(s.push(f), level) == funcs_text(s, level) + func_text(f, level),
{
    assert(s.push(f).drop_last() =~= s);
}

/// Appends the lines of a block.
pub fn fmt_block(out: &mut String, block: &Block, level: usize)
    requires
        level + 1 + stmts_depth(block@) < MAX_FORMAT_DEPTH,
    ensures
        final(out)@ == old(out)@ + block_text(block@, level as nat),
    decreases block, 1nat,
{
    indent(out, level);
    push_str(out, "Body\n");
    fmt_stmts(out, &block.statements, level + 1);
}

/// Appends the lines of each statement of a list.
fn fmt_stmts(out: &mut String, stmts: &Vec<Statement>, level: usize)
    requires
        level + stmts_depth(stmts_view(stmts@)) < MAX_FORMAT_DEPTH,
    ensures
        final(out)@ == old(out)@ + stmts_text(stmts_view(stmts@), level as nat),
    decreases stmts, 0nat,
{
    proof {
        lemma_stmts_view(stmts@);
        lemma_stmts_depth(stmts_view(stmts@));
    }
    let ghost all = stmts_view(stmts@);
    let mut i: usize = 0;
    assert(all.subrange(0, 0) =~= Seq::<AStmt>::empty());
    while i < stmts.len()
        invariant
            i <= stmts@.len(),
            all == stmts_view(stmts@),
            all.len() == stmts@.len(),
            forall|k: int| 0 <= k < stmts@.len() ==> #[trigger] all[k] == stmts@[k]@,
            forall|k: int| 0 <= k < all.len() ==> stmt_depth(#[trigger] all[k]) <= stmts_depth(all),
            level + stmts_depth(all) < MAX_FORMAT_DEPTH,
            out@ == old(out)@ + stmts_text(all.subrange(0, i as int), level as nat),
        decreases stmts@.len() - i,
    {
        assert(stmt_depth(all[i as int]) <= stmts_depth(all));
        fmt_stmt(out, &stmts[i], level);
        proof {
            lemma_stmts_text_push(all.subrange(0, i as int), all[i as int], level as nat);
            assert(all.subrange(0, i as int).push(all[i as int]) =~= all.subrange(0, i + 1));
        }
        i = i + 1;
    }
    assert(all.subrange(0, i as int) =~= all);
}

/// Appends the lines of a statement.
#[verifier::rlimit(40)]
pub fn fmt_stmt(out: &mut String, stmt: &Statement, level: usize)
    requires
        level + stmt_depth(stmt@) < MAX_FORMAT_DEPTH,
    ensures
        final(out)@ == old(out)@ + stmt_text(stmt@, level as nat),
    decreases stmt, 2nat,
{
    match stmt {
        Statement::If(cond, then_block, else_block) => {
            indent(out, level);
            push_str(out, "If\n");
            indent(out, level + 1);
            push_str(out, "Cond\n");
            fmt_expr(out, cond, level + 2);
            indent(out, level + 1);
            push_str(out, "Then\n");
            fmt_block(out, then_block, level + 2);
            match else_block {
                Some(eb) => {
                    indent(out, level + 1);
                    push_str(out, "Else\n");
                    fmt_block(out, eb, level + 2);
                },
                None => {},
            }
            assert(final(out)@ =~= old(out)@ + stmt_text(stmt@, level as nat));
        },
        Statement::While(cond, body) => {
            indent(out, level);
            push_str(out, "While\n");
            indent(out, level + 1);
            push_str(out, "Cond\n");
            fmt_expr(out, cond, level + 2);
            fmt_block(out, body, level + 1);
            assert(final(out)@ =~= old(out)@ + stmt_text(stmt@, level as nat));
        },
        _ => {
            fmt_simple_stmt(out, stmt, level);
        },
    }
}

/// Appends the lines of a statement that holds no block.
fn fmt_simple_stmt(out: &mut String, stmt: &Statement, level: usize)
    requires
        level + stmt_depth(stmt@) < MAX_FORMAT_DEPTH,
        !(stmt is If),
        !(stmt is While),
    ensures
        final(out)@ == old(out)@ + stmt_text(stmt@, level as nat),
{
    match stmt {
        Statement::Let(name, typ, expr) => {
            indent(out, level);
            push_str(out, "Let ");
            push_str(out, name.as_str());
            push_str(out, " : ");
            let t = fmt_type(typ);
            push_str(out, t.as_str());
            push_str(out, "\n");
            fmt_expr(out, expr, level + 1);
            assert(final(out)@ =~= old(out)@ + stmt_text(stmt@, level as nat));
        },
        Statement::Assign(name, index, expr) => {
            indent(out, level);
            match index {
                Some(idx) => {
                    push_str(out, "Assign ");
                    push_str(out, name.as_str());
                    push_str(out, "[]\n");
                    fmt_expr(out, idx, level + 1);
                },
                None => {
                    push_str(out, "Assign ");
                    push_str(out, name.as_str());
                    push_str(out, "\n");
                },
            }
            fmt_expr(out, expr, level + 1);
            assert(final(out)@ =~= old(out)@ + stmt_text(stmt@, level as nat));
        },
        Statement::Return(expr_opt) => {
            indent(out, level);
            push_str(out, "Return\n");
            match expr_opt {
                Some(expr) => {
                    fmt_expr(out, expr, level + 1);
                },
                None => {},
            }
            assert(final(out)@ =~= old(out)@ + stmt_text(stmt@, level as nat));
        },
        Statement::Expr(expr) => {
            indent(out, level);
            push_str(out, "ExprStmt\n");
            fmt_expr(out, expr, level + 1);
            assert(final(out)@ =~= old(out)@ + stmt_text(stmt@, level as nat));
        },
        _ => {},
    }
}

/// Appends the lines of a function declaration.
pub fn fmt_func(out: &mut String, func: &FunctionDecl, level: usize)
    requires
        level + 2 + stmts_depth(func.body@) < MAX_FORMAT_DEPTH,
    ensures
        final(out)@ == old(out)@ + func_text(func@, level as nat),
{
    indent(out, level);
    push_str(out, "FunctionDecl ");
    push_str(out, func.name.as_str());
    push_str(out, " (");
    let ghost ps = params_view(func.params@);
    let mut params = String::new();
    let mut i: usize = 0;
    assert(param_texts(ps).subrange(0, 0) =~= Seq::<Seq<char>>::empty());
    while i < func.params.len()
        invariant
            i <= func.params@.len(),
            ps == params_view(func.params@),
            params@ == join(param_texts(ps).subrange(0, i as int), ", "@),
        decreases func.params@.len() - i,
    {
        let p = &func.params[i];
        let mut piece = String::new();
        push_str(&mut piece, p.name.as_str());
        push_str(&mut piece, ": ");
        let t = fmt_type(&p.typ);
        push_str(&mut piece, t.as_str());
        proof {
            lemma_join_push(param_texts(ps).subrange(0, i as int), piece@, ", "@);
            assert(param_texts(ps).subrange(0, i as int).push(piece@) =~= param_texts(ps).subrange(0, i + 1));
        }
        if i > 0 {
            push_str(&mut params, ", ");
        }
        push_str(&mut params, piece.as_str());
        i = i + 1;
    }
    assert(param_texts(ps).subrange(0, i as int) =~= param_texts(ps));
    push_str(out, params.as_str());
    push_str(out, ")");
    match &func.return_type {
        Some(ret) => {
            push_str(out, " -> ");
            let t = fmt_type(ret);
            push_str(out, t.as_str());
        },
        None => {},
    }
    push_str(out, "\n");
    fmt_block(out, &func.body, level + 1);
    assert(final(out)@ =~= old(out)@ + func_text(func@, level as nat));
}


/// A depth, or `MAX_FORMAT_DEPTH` if it is deeper.
pub open spec fn capped(n: nat) -> nat {
    if n < MAX_FORMAT_DEPTH { n } else { MAX_FORMAT_DEPTH as nat }
}

/// The larger of two numbers.
fn larger(a: u64, b: u64) -> (m: u64)
    ensures
        m == (if a >= b { a } else { b }),
{
    if a >= b { a } else { b }
}

/// One more than a capped depth, capped.
fn capped_succ(d: u64, k: u64) -> (r: u64)
    requires
        d <= MAX_FORMAT_DEPTH,
        k <= 3,
    ensures
        r == capped((d + k) as nat),
{
    if d + k < MAX_FORMAT_DEPTH as u64 { d + k } else { MAX_FORMAT_DEPTH as u64 }
}

/// How deep an expression's lines go, capped.
fn expr_depth_capped(e: &Expr) -> (d: u64)
    ensures
        d == capped(expr_depth(e@)),
    decreases e,
{
    match e {
        Expr::UnaryOp(_, inner) => capped_succ(expr_depth_capped(inner), 1),
        Expr::BinaryOp(l, _, r) => capped_succ(larger(expr_depth_capped(l), expr_depth_capped(r)), 1),
        Expr::FunctionCall(_, args) => capped_succ(exprs_depth_capped(args), 1),
        Expr::ArrayInit(elems) => capped_succ(exprs_depth_capped(elems), 1),
        Expr::ArrayAccess(_, index) => capped_succ(expr_depth_capped(index), 1),
        Expr::Grouping(inner) => capped_succ(expr_depth_capped(inner), 1),
        _ => 0,
    }
}

/// How deep the deepest of a list of expressions goes, capped.
fn exprs_depth_capped(es: &Vec<Expr>) -> (d: u64)
    ensures
        d == capped(exprs_depth(exprs_view(es@))),
    decreases es,
{
    proof {
        lemma_exprs_view(es@);
    }
    let ghost all = exprs_view(es@);
    let mut acc: u64 = 0;
    let mut i: usize = 0;
    while i < es.len()
        invariant
            i <= es@.len(),
            all == exprs_view(es@),
            all.len() == es@.len(),
            forall|k: int| 0 <= k < es@.len() ==> #[trigger] all[k] == es@[k]@,
            acc == capped(exprs_depth(all.subrange(0, i as int))),
        decreases es@.len() - i,
    {
        let d = expr_depth_capped(&es[i]);
        assert(all.subrange(0, i + 1).subrange(0, i as int) =~= all.subrange(0, i as int));
        acc = larger(acc, d);
        i = i + 1;
    }
    assert(all.subrange(0, i as int) =~= all);
    acc
}

/// How deep a statement's lines go, capped.
fn stmt_depth_capped(s: &Statement) -> (d: u64)
    ensures
        d == capped(stmt_depth(s@)),
    decreases s, 0nat,
{
    match s {
        Statement::Let(_, _, e) => capped_succ(expr_depth_capped(e), 1),
        Statement::Assign(_, index, e) => match index {
            Some(idx) => capped_succ(larger(expr_depth_capped(idx), expr_depth_capped(e)), 1),
            None => capped_succ(expr_depth_capped(e), 1),
        },
        Statement::If(c, t, els) => {
            let a = expr_depth_capped(c);
            let b = stmts_depth_capped(&t.statements);
            let d = match els {
                Some(eb) => stmts_depth_capped(&eb.statements),
                None => 0,
            };
            capped_succ(larger(a, larger(b, d)), 3)
        },
        Statement::While(c, body) => capped_succ(larger(expr_depth_capped(c), stmts_depth_capped(&body.statements)), 3),
        Statement::Return(e) => match e {
            Some(x) => capped_succ(expr_depth_capped(x), 1),
            None => 1,
        },
        Statement::Expr(e) => capped_succ(expr_depth_capped(e), 1),
    }
}

/// How deep the deepest of a list of statements goes, capped.
fn stmts_depth_capped(ss: &Vec<Statement>) -> (d: u64)
    ensures
        d == capped(stmts_depth(stmts_view(ss@))),
    decreases ss, 1nat,
{
    proof {
        lemma_stmts_view(ss@);
    }
    let ghost all = stmts_view(ss@);
    let mut acc: u64 = 0;
    let mut i: usize = 0;
    while i < ss.len()
        invariant
            i <= ss@.len(),
            all == stmts_view(ss@),
            all.len() == ss@.len(),
            forall|k: int| 0 <= k < ss@.len() ==> #[trigger] all[k] == ss@[k]@,
            acc == capped(stmts_depth(all.subrange(0, i as int))),
        decreases ss@.len() - i,
    {
        let d = stmt_depth_capped(&ss[i]);
        assert(all.subrange(0, i + 1).subrange(0, i as int) =~= all.subrange(0, i as int));
        acc = larger(acc, d);
        i = i + 1;
    }
    assert(all.subrange(0, i as int) =~= all);
    acc
}

impl Program {
    /// The syntax tree as text (see `program_text`).
    pub fn format_ast(&self) -> (s: String)
        requires
            program_depth(self@) + 2 < MAX_FORMAT_DEPTH,
        ensures
            s@ == program_text(self@),
    {
        let mut out = String::new();
        push_str(&mut out, "Program\n");
        fmt_stmts(&mut out, &self.statements, 1);
        let ghost fs = funcs_view(self.functions@);
        proof {
            lemma_funcs_depth(fs);
        }
        let ghost mid = out@;
        let mut i: usize = 0;
        assert(fs.subrange(0, 0) =~= Seq::<AFunc>::empty());
        while i < self.functions.len()
            invariant
                i <= self.functions@.len(),
                fs == funcs_view(self.functions@),
                forall|k: int| 0 <= k < fs.len() ==> 2 + stmts_depth(#[trigger] fs[k].body) <= funcs_depth(fs),
                program_depth(self@) + 2 < MAX_FORMAT_DEPTH,
                out@ == mid + funcs_text(fs.subrange(0, i as int), 1),
            decreases self.functions@.len() - i,
        {
            assert(fs[i as int] == self.functions@[i as int]@);
            assert(2 + stmts_depth(fs[i as int].body) <= funcs_depth(fs));
            fmt_func(&mut out, &self.functions[i], 1);
            proof {
                lemma_funcs_text_push(fs.subrange(0, i as int), fs[i as int], 1);
                assert(fs.subrange(0, i as int).push(fs[i as int]) =~= fs.subrange(0, i + 1));
            }
            i = i + 1;
        }
        assert(fs.subrange(0, i as int) =~= fs);
        out
    }

    /// Whether the program's text stays within the nesting that
    /// `format_ast` can lay out.
    pub fn within_format_depth(&self) -> (b: bool)
        ensures
            b == (program_depth(self@) + 2 < MAX_FORMAT_DEPTH),
    {
        let a = stmts_depth_capped(&self.statements);
        let ghost fs = funcs_view(self.functions@);
        let mut acc: u64 = 0;
        let mut i: usize = 0;
        while i < self.functions.len()
            invariant
                i <= self.functions@.len(),
                fs == funcs_view(self.functions@),
                acc == capped(funcs_depth(fs.subrange(0, i as int))),
            decreases self.functions@.len() - i,
        {
            assert(fs[i as int] == self.functions@[i as int]@);
            let d = stmts_depth_capped(&self.functions[i].body.statements);
            assert(fs.subrange(0, i + 1).drop_last() =~= fs.subrange(0, i as int));
            acc = larger(acc, capped_succ(d, 2));
            i = i + 1;
        }
        assert(fs.subrange(0, i as int) =~= fs);
        let m = larger(a, acc);
        m + 2 < MAX_FORMAT_DEPTH as u64
    }
}


/// How an operator node is laid out: a line with the operator's name at the
/// node's indentation (two spaces per level), then the lines of its left
/// operand, then those of its right operand, both one level deeper; a unary
/// node shows its operand below its name. The names are those of the
/// operators themselves (`Add`, `Sub`, ..., `Neg`, `Not`, `BitNot`), and a
/// number is a line `Number` and its value. So `5 - 2` shows `Number 5`
/// before `Number 2`.
pub proof fn lemma_operator_layout(l: AExpr, op: BinaryOp, r: AExpr, u: UnaryOp, x: i32, y: i32, k: nat)
    ensures
        expr_text(AExpr::Binary(Box::new(l), op, Box::new(r)), k)
            == spaces(2 * k) + binary_text(op) + "\n"@ + expr_text(l, k + 1) + expr_text(r, k + 1),
        expr_text(AExpr::Unary(u, Box::new(l)), k) == spaces(2 * k) + unary_text(u) + "\n"@ + expr_text(l, k + 1),
        expr_text(AExpr::Number(x), k) == spaces(2 * k) + "Number "@ + int_text(x as int) + "\n"@,
        expr_text(AExpr::Binary(Box::new(AExpr::Number(x)), op, Box::new(AExpr::Number(y))), k)
            == spaces(2 * k) + binary_text(op) + "\n"@ + spaces(2 * k + 2) + "Number "@ + int_text(x as int) + "\n"@
            + spaces(2 * k + 2) + "Number "@ + int_text(y as int) + "\n"@,
        binary_text(BinaryOp::Add) == "Add"@ && binary_text(BinaryOp::Sub) == "Sub"@
            && binary_text(BinaryOp::Mul) == "Mul"@ && binary_text(BinaryOp::Div) == "Div"@
            && binary_text(BinaryOp::Rem) == "Rem"@ && binary_text(BinaryOp::Eq) == "Eq"@
            && binary_text(BinaryOp::NotEq) == "NotEq"@ && binary_text(BinaryOp::Less) == "Less"@
            && binary_text(BinaryOp::LessEq) == "LessEq"@ && binary_text(BinaryOp::Greater) == "Greater"@
            && binary_text(BinaryOp::GreaterEq) == "GreaterEq"@ && binary_text(BinaryOp::And) == "And"@
            && binary_text(BinaryOp::Or) == "Or"@ && binary_text(BinaryOp::BitAnd) == "BitAnd"@
            && binary_text(BinaryOp::BitOr) == "BitOr"@ && binary_text(BinaryOp::Xor) == "Xor"@,
        unary_text(UnaryOp::Neg) == "Neg"@ && unary_text(UnaryOp::Not) == "Not"@
            && unary_text(UnaryOp::BitNot) == "BitNot"@,
{
    let lx = expr_text(AExpr::Number(x), k + 1);
    let ly = expr_text(AExpr::Number(y), k + 1);
    assert(2 * (k + 1) == 2 * k + 2);
    assert(expr_text(AExpr::Binary(Box::new(AExpr::Number(x)), op, Box::new(AExpr::Number(y))), k)
        =~= spaces(2 * k) + binary_text(op) + "\n"@ + spaces(2 * k + 2) + "Number "@ + int_text(x as int) + "\n"@
            + spaces(2 * k + 2) + "Number "@ + int_text(y as int) + "\n"@);
}


/// The text of statements laid one after the other is the text of each, in
/// order: the text of `a + b` is that of `a` followed by that of `b`.
pub proof fn lemma_stmts_text_concat(a: Seq<AStmt>, b: Seq<AStmt>, level: nat)
    ensures
        stmts_text(a + b, level) == stmts_text(a, level) + stmts_text(b, level),
    decreases b.len(),
{
    if b.len() == 0 {
        assert(a + b =~= a);
        assert(stmts_text(a, level) + Seq::<char>::empty() =~= stmts_text(a, level));
    } else {
        let b0 = b.subrange(0, b.len() - 1);
        lemma_stmts_text_concat(a, b0, level);
        assert((a + b).subrange(0, (a + b).len() - 1) =~= a + b0);
        assert((a + b)[(a + b).len() - 1] == b[b.len() - 1]);
        assert(stmts_text(a, level) + stmts_text(b0, level) + stmt_text(b[b.len() - 1], level)
            =~= stmts_text(a, level) + (stmts_text(b0, level) + stmt_text(b[b.len() - 1], level)));
    }
}

/// The text of functions laid one after the other is the text of each, in
/// order.
pub proof fn lemma_funcs_text_concat(a: Seq<AFunc>, b: Seq<AFunc>, level: nat)
    ensures
        funcs_text(a + b, level) == funcs_text(a, level) + funcs_text(b, level),
    decreases b.len(),
{
    if b.len() == 0 {
        assert(a + b =~= a);
        assert(funcs_text(a, level) + Seq::<char>::empty() =~= funcs_text(a, level));
    } else {
        lemma_funcs_text_concat(a, b.drop_last(), level);
        assert((a + b).drop_last() =~= a + b.drop_last());
        assert(funcs_text(a, level) + funcs_text(b.drop_last(), level) + func_text(b.last(), level)
            =~= funcs_text(a, level) + (funcs_text(b.drop_last(), level) + func_text(b.last(), level)));
    }
}

/// How statements are laid out, each at its indentation (two spaces per
/// level): a `Let` line with the name and type above its value; an `Assign`
/// line above the index (if any) and then the value; an `If` line, then
/// `Cond` with the condition, `Then` with the then-block, and `Else` with the
/// else-block if there is one; a `While` line, then `Cond` with the condition
/// and the body; a `Return` line above its value; an `ExprStmt` line above the
/// expression. A block is a `Body` line above its statements, in order; a
/// program is a `Program` line, then the global statements, then the
/// functions, in order.
pub proof fn lemma_statement_layout(name: Seq<char>, typ: Type, e: AExpr, idx: AExpr, body: Seq<AStmt>,
    other: Seq<AStmt>, s: AStmt, p: AProgram, k: nat)
    ensures
        stmt_text(AStmt::Let(name, typ, e), k) == spaces(2 * k) + "Let "@ + name + " : "@ + type_text(typ) + "\n"@
            + expr_text(e, k + 1),
        stmt_text(AStmt::Assign(name, Some(idx), e), k) == spaces(2 * k) + "Assign "@ + name + "[]\n"@
            + expr_text(idx, k + 1) + expr_text(e, k + 1),
        stmt_text(AStmt::Assign(name, None, e), k) == spaces(2 * k) + "Assign "@ + name + "\n"@ + expr_text(e, k + 1),
        stmt_text(AStmt::If(e, body, Some(other)), k) == spaces(2 * k) + "If\n"@ + spaces(2 * k + 2) + "Cond\n"@
            + expr_text(e, k + 2) + spaces(2 * k + 2) + "Then\n"@ + block_text(body, k + 2) + spaces(2 * k + 2)
            + "Else\n"@ + block_text(other, k + 2),
        stmt_text(AStmt::If(e, body, None), k) == spaces(2 * k) + "If\n"@ + spaces(2 * k + 2) + "Cond\n"@
            + expr_text(e, k + 2) + spaces(2 * k + 2) + "Then\n"@ + block_text(body, k + 2),
        stmt_text(AStmt::While(e, body), k) == spaces(2 * k) + "While\n"@ + spaces(2 * k + 2) + "Cond\n"@
            + expr_text(e, k + 2) + block_text(body, k + 1),
        stmt_text(AStmt::Return(Some(e)), k) == spaces(2 * k) + "Return\n"@ + expr_text(e, k + 1),
        stmt_text(AStmt::Return(None), k) == spaces(2 * k) + "Return\n"@,
        stmt_text(AStmt::Expr(e), k) == spaces(2 * k) + "ExprStmt\n"@ + expr_text(e, k + 1),
        block_text(body.push(s), k) == spaces(2 * k) + "Body\n"@ + stmts_text(body, k + 1) + stmt_text(s, k + 1),
        stmts_text(seq![s], k) == stmt_text(s, k),
        program_text(p) == "Program\n"@ + stmts_text(p.statements, 1) + funcs_text(p.functions, 1),
        type_text(Type::I32) == "i32"@ && type_text(Type::StringType) == "String"@,
{
    assert(2 * (k + 1) == 2 * k + 2);
    assert(body.push(s).subrange(0, body.len() as int) =~= body);
    assert(seq![s].subrange(0, 0) =~= Seq::<AStmt>::empty());
    assert(stmts_text(Seq::<AStmt>::empty(), k) == Seq::<char>::empty());
    assert(Seq::<char>::empty() + stmt_text(s, k) =~= stmt_text(s, k));
    assert(spaces(2 * k) + "Return\n"@ + Seq::<char>::empty() =~= spaces(2 * k) + "Return\n"@);
    assert(spaces(2 * k) + "If\n"@ + spaces(2 * k + 2) + "Cond\n"@ + expr_text(e, k + 2) + spaces(2 * k + 2)
        + "Then\n"@ + block_text(body, k + 2) + Seq::<char>::empty() =~= spaces(2 * k) + "If\n"@ + spaces(2 * k + 2)
        + "Cond\n"@ + expr_text(e, k + 2) + spaces(2 * k + 2) + "Then\n"@ + block_text(body, k + 2));
    assert(stmt_text(AStmt::If(e, body, Some(other)), k) =~= spaces(2 * k) + "If\n"@ + spaces(2 * k + 2) + "Cond\n"@
        + expr_text(e, k + 2) + spaces(2 * k + 2) + "Then\n"@ + block_text(body, k + 2) + spaces(2 * k + 2)
        + "Else\n"@ + block_text(other, k + 2));
    assert(block_text(body.push(s), k) =~= spaces(2 * k) + "Body\n"@ + stmts_text(body, k + 1) + stmt_text(s, k + 1));
}


/// How types and function headers are laid out: an array type is its
/// element type and length in brackets, `[i32; 3]`; a function is a line
/// `FunctionDecl`, its name, its parameters `name: type` joined by `, ` in
/// parentheses and ` -> ` with the return type if it has one, then its body one
/// level deeper.
pub proof fn lemma_header_layout(inner: Type, n: usize, name: Seq<char>, a: AParam, b: AParam, ret: Type,
    body: Seq<AStmt>, k: nat)
    ensures
        type_text(Type::Array(Box::new(inner), n)) == "["@ + type_text(inner) + "; "@ + dec_text(n as nat) + "]"@,
        func_text(AFunc { name: name, params: seq![a, b], return_type: Some(ret), body: body }, k)
            == spaces(2 * k) + "FunctionDecl "@ + name + " ("@ + a.name + ": "@ + type_text(a.typ) + ", "@ + b.name
            + ": "@ + type_text(b.typ) + ")"@ + " -> "@ + type_text(ret) + "\n"@ + block_text(body, k + 1),
        func_text(AFunc { name: name, params: Seq::empty(), return_type: None, body: body }, k)
            == spaces(2 * k) + "FunctionDecl "@ + name + " ("@ + ")"@ + "\n"@ + block_text(body, k + 1),
{
    let ps = seq![a, b];
    let texts = param_texts(ps);
    assert(texts =~= seq![param_text(a), param_text(b)]);
    let j = join(texts, ", "@);
    assert(texts.drop_last() =~= seq![param_text(a)]);
    assert(seq![param_text(a)].drop_last() =~= Seq::<Seq<char>>::empty());
    assert(join(seq![param_text(a)], ", "@) == param_text(a));
    assert(j == param_text(a) + ", "@ + param_text(b));
    assert(param_texts(Seq::<AParam>::empty()) =~= Seq::<Seq<char>>::empty());
    assert(func_text(AFunc { name: name, params: ps, return_type: Some(ret), body: body }, k)
        =~= spaces(2 * k) + "FunctionDecl "@ + name + " ("@ + a.name + ": "@ + type_text(a.typ) + ", "@ + b.name
            + ": "@ + type_text(b.typ) + ")"@ + " -> "@ + type_text(ret) + "\n"@ + block_text(body, k + 1));
    assert(func_text(AFunc { name: name, params: Seq::empty(), return_type: None, body: body }, k)
        =~= spaces(2 * k) + "FunctionDecl "@ + name + " ("@ + ")"@ + "\n"@ + block_text(body, k + 1));
}


/// A string literal's text stays on one line: its shown form holds no
/// newline and no tab, and shows every other character but backslash and
/// double quote as it is, so that a string without those four characters is
/// shown unchanged.
pub proof fn lemma_escaped_one_line(s: Seq<char>)
    ensures
        forall|i: int| 0 <= i < escaped_text(s).len() ==> escaped_text(s)[i] != '\n' && escaped_text(s)[i] != '\t',
        (forall|i: int| 0 <= i < s.len() ==> s[i] != '\n' && s[i] != '\t' && s[i] != '\\' && s[i] != '"')
            ==> escaped_text(s) == s,
    decreases s.len(),
{
    reveal_strlit("\\n");
    reveal_strlit("\\t");
    reveal_strlit("\\\\");
    reveal_strlit("\\\"");
    if s.len() > 0 {
        lemma_escaped_one_line(s.drop_last());
        let a = escaped_text(s.drop_last());
        let b = escaped_char(s.last());
        assert(forall|i: int| 0 <= i < b.len() ==> b[i] != '\n' && b[i] != '\t');
        assert forall|i: int| 0 <= i < (a + b).len() implies (a + b)[i] != '\n' && (a + b)[i] != '\t' by {
            if i >= a.len() {
                assert((a + b)[i] == b[i - a.len()]);
            }
        }
        if forall|i: int| 0 <= i < s.len() ==> s[i] != '\n' && s[i] != '\t' && s[i] != '\\' && s[i] != '"' {
            assert forall|i: int| 0 <= i < s.drop_last().len() implies s.drop_last()[i] != '\n' && s.drop_last()[i]
                != '\t' && s.drop_last()[i] != '\\' && s.drop_last()[i] != '"' by {
                assert(s.drop_last()[i] == s[i]);
            }
            assert(s.last() == s[s.len() - 1]);
            assert(s.drop_last() + seq![s.last()] =~= s);
        }
    }
}

} // verus!
