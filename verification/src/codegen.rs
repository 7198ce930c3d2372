//! What the assembler makes of a program, stated over plain values: the data
//! it reserves for each name, the commands it generates for each statement and
//! expression, and the text and binary it emits from them.
//!
//! Each step is a partial function: `None` stands for the inputs on which code
//! generation cannot go on (a string literal used as a value, an unknown array,
//! more arguments than parameters, an address or counter that leaves its range,
//! a constant initializer whose arithmetic overflows or divides by zero).
use vstd::prelude::*;
use vstd::utf8::encode_utf8;
use crate::ast::{Type, UnaryOp, BinaryOp, AExpr, AStmt, AParam, AFunc, AProgram};
use crate::asm_cmd::{Mnemonic, AOperand, ACmd, instr_text, instr_word, le_bytes};
use crate::text::{dec_text, hex_text, join};

verus! {

// ---------------------------------------------------------------------------
// Tables keyed by name: a later insert of a name replaces its value in place.

/// The value of the first entry of `name`.
pub open spec fn table_get<V>(t: Seq<(Seq<char>, V)>, name: Seq<char>) -> Option<V>
    decreases t.len(),
{
    if t.len() == 0 {
        None
    } else if t[0].0 == name {
        Some(t[0].1)
    } else {
        table_get(t.drop_first(), name)
    }
}

/// The table with `name` bound to `v`: its first entry replaced, or a new
/// entry at the end.
pub open spec fn table_insert<V>(t: Seq<(Seq<char>, V)>, name: Seq<char>, v: V) -> Seq<(Seq<char>, V)>
    decreases t.len(),
{
    if t.len() == 0 {
        seq![(name, v)]
    } else if t[0].0 == name {
        t.update(0, (name, v))
    } else {
        seq![t[0]] + table_insert(t.drop_first(), name, v)
    }
}

/// The name of the first entry bound to address `a`.
pub open spec fn name_at(t: Seq<(Seq<char>, u32)>, a: u32) -> Option<Seq<char>>
    decreases t.len(),
{
    if t.len() == 0 {
        None
    } else if t[0].1 == a {
        Some(t[0].0)
    } else {
        name_at(t.drop_first(), a)
    }
}

// ---------------------------------------------------------------------------
// Names.

/// A function's own copy of a name: `name_func`.
pub open spec fn local_name(name: Seq<char>, func: Seq<char>) -> Seq<char> {
    name + "_"@ + func
}

/// The cell that holds a function's return value.
pub open spec fn ret_name(func: Seq<char>) -> Seq<char> {
    func + "_ret"@
}

/// The name of label number `n`: `.L` and the number.
pub open spec fn label_name(n: nat) -> Seq<char> {
    ".L"@ + dec_text(n)
}

/// The scratch cell of an operator at a nesting depth. The scratch cells are
/// global and shared by every function, and a call does not save them: when
/// an operand held in a cell is followed by a call whose body uses the same
/// cell, the call overwrites it, so that in `f(1) + 10` the sum is taken with
/// what `f` left in the cell rather than with 10.
pub open spec fn tmp_name(d: nat) -> Seq<char> {
    "__tmp_"@ + dec_text(d)
}

/// The scratch cell of an index at a nesting depth.
pub open spec fn idx_name(d: nat) -> Seq<char> {
    "__tmp_idx_"@ + dec_text(d)
}

/// The scratch cell of a computed address at a nesting depth.
pub open spec fn ptr_name(d: nat) -> Seq<char> {
    "__tmp_ptr_"@ + dec_text(d)
}

/// The scratch cell of the value of an indexed assignment.
pub open spec fn val_name() -> Seq<char> {
    "__tmp_val"@
}

/// How many operator, index and address scratch cells are reserved.
pub open spec fn temp_count() -> nat {
    32
}

pub open spec fn temp_idx_count() -> nat {
    8
}

pub open spec fn temp_ptr_count() -> nat {
    8
}

/// The address of the output port.
pub open spec fn out_port() -> u32 {
    0x1FFFFFF
}

/// The address of the input port.
pub open spec fn in_port() -> u32 {
    0x1FFFFFE
}

// ---------------------------------------------------------------------------
// Constant initializers of global variables.

/// What evaluating an initializer gives: a value, nothing (it is not a
/// constant expression), or a fault (overflow or division by zero).
pub enum ConstEval {
    Value(i32),
    Unknown,
    Fault,
}

/// The value of a binary operator on two constants, with wrapping excluded:
/// overflow and division by zero are faults. Comparisons and logical
/// operators give 1 or 0.
pub open spec fn const_binary(op: BinaryOp, l: i32, r: i32) -> ConstEval {
    let b = |x: bool| if x { ConstEval::Value(1) } else { ConstEval::Value(0) };
    let fit = |x: int| if i32::MIN <= x <= i32::MAX { ConstEval::Value(x as i32) } else { ConstEval::Fault };
    match op {
        BinaryOp::Add => fit(l + r),
        BinaryOp::Sub => fit(l - r),
        BinaryOp::Mul => fit(l * r),
        BinaryOp::Div => match l.checked_div(r) {
            Some(q) => ConstEval::Value(q),
            None => ConstEval::Fault,
        },
        BinaryOp::Rem => match l.checked_rem(r) {
            Some(q) => ConstEval::Value(q),
            None => ConstEval::Fault,
        },
        BinaryOp::Eq => b(l == r),
        BinaryOp::NotEq => b(l != r),
        BinaryOp::Less => b(l < r),
        BinaryOp::LessEq => b(l <= r),
        BinaryOp::Greater => b(l > r),
        BinaryOp::GreaterEq => b(l >= r),
        BinaryOp::And => b(l != 0 && r != 0),
        BinaryOp::Or => b(l != 0 || r != 0),
        BinaryOp::BitAnd => ConstEval::Value(l & r),
        BinaryOp::BitOr => ConstEval::Value(l | r),
        BinaryOp::Xor => ConstEval::Value(l ^ r),
    }
}

/// The constant value of an initializer. Numbers, negation, both kinds of
/// `not` (bitwise on the value) and binary operators are evaluated, the left
/// operand first; anything else, a grouping included, is no constant.
pub open spec fn const_eval(e: AExpr) -> ConstEval
    decreases e,
{
    match e {
        AExpr::Number(n) => ConstEval::Value(n),
        AExpr::Unary(op, inner) => match const_eval(*inner) {
            ConstEval::Value(v) => match op {
                UnaryOp::Neg => if v == i32::MIN {
                    ConstEval::Fault
                } else {
                    ConstEval::Value((-v) as i32)
                },
                _ => ConstEval::Value(!v),
            },
            other => other,
        },
        AExpr::Binary(l, op, r) => match const_eval(*l) {
            ConstEval::Value(a) => match const_eval(*r) {
                ConstEval::Value(b) => const_binary(op, a, b),
                other => other,
            },
            other => other,
        },
        _ => ConstEval::Unknown,
    }
}

/// The initial values of an array's elements: each constant, or 0 where an
/// element is no constant; `None` if one of them faults.
pub open spec fn const_values(elems: Seq<AExpr>) -> Option<Seq<i32>>
    decreases elems.len(),
{
    if elems.len() == 0 {
        Some(Seq::empty())
    } else {
        match const_eval(elems[0]) {
            ConstEval::Fault => None,
            first => match const_values(elems.drop_first()) {
                None => None,
                Some(rest) => Some(seq![if let ConstEval::Value(v) = first { v } else { 0i32 }] + rest),
            },
        }
    }
}

// ---------------------------------------------------------------------------
// Reserving data.

/// The assembler's state: data and code commands, the symbol and parameter
/// tables, the next free data address, the label counter, and the text and
/// binary emitted so far.
pub struct AsmState {
    pub data: Seq<ACmd>,
    pub code: Seq<ACmd>,
    pub symbols: Seq<(Seq<char>, u32)>,
    pub params: Seq<(Seq<char>, Seq<Seq<char>>)>,
    pub data_addr: u32,
    pub label: nat,
    pub text: Seq<char>,
    pub binary: Seq<u8>,
}

/// The state of data reservation: data words, tables, next free address.
pub struct Coll {
    pub data: Seq<ACmd>,
    pub symbols: Seq<(Seq<char>, u32)>,
    pub params: Seq<(Seq<char>, Seq<Seq<char>>)>,
    pub next: u32,
}

/// `n` zero words.
pub open spec fn zero_words(n: nat) -> Seq<i32> {
    Seq::new(n, |i: int| 0i32)
}

/// Bytes as words, one word per byte.
pub open spec fn byte_words(b: Seq<u8>) -> Seq<i32> {
    Seq::new(b.len(), |i: int| b[i] as i32)
}

/// Reserves `size` cells for `name` at the next free address, with the data
/// command `words`; `None` if the address space would overflow.
pub open spec fn add_var(c: Coll, name: Seq<char>, size: u32, words: Seq<i32>) -> Option<Coll> {
    if c.next + size > u32::MAX {
        None
    } else {
        Some(Coll {
            data: c.data.push(ACmd::Word(words)),
            symbols: table_insert(c.symbols, name, c.next),
            params: c.params,
            next: (c.next + size) as u32,
        })
    }
}

/// The data of a global statement: an `i32` gets one cell with its constant
/// value (or 0); a string gets its UTF-8 bytes and a terminating 0; an array
/// gets its declared number of cells and the constant values of its
/// initializer list (or zeros). Other statements reserve nothing.
pub open spec fn collect_global(c: Coll, s: AStmt) -> Option<Coll> {
    match s {
        AStmt::Let(name, typ, e) => match typ {
            Type::I32 => match const_eval(e) {
                ConstEval::Fault => None,
                ConstEval::Value(v) => add_var(c, name, 1, seq![v]),
                ConstEval::Unknown => add_var(c, name, 1, seq![0i32]),
            },
            Type::StringType => {
                let content = match e {
                    AExpr::Str(s) => byte_words(encode_utf8(s)).push(0),
                    _ => seq![0i32],
                };
                add_var(c, name, content.len() as u32, content)
            },
            Type::Array(_, size) => match e {
                AExpr::ArrayInit(elems) => match const_values(elems) {
                    None => None,
                    Some(vals) => add_var(c, name, size as u32, vals),
                },
                _ => add_var(c, name, size as u32, zero_words(size as nat)),
            },
        },
        _ => Some(c),
    }
}

/// The data of the global statements, in order.
pub open spec fn collect_globals(c: Coll, stmts: Seq<AStmt>) -> Option<Coll>
    decreases stmts.len(),
{
    if stmts.len() == 0 {
        Some(c)
    } else {
        match collect_global(c, stmts[0]) {
            None => None,
            Some(c1) => collect_globals(c1, stmts.drop_first()),
        }
    }
}

/// The cells of a function's parameters, one each, in order.
pub open spec fn collect_params(c: Coll, ps: Seq<AParam>, func: Seq<char>) -> Option<Coll>
    decreases ps.len(),
{
    if ps.len() == 0 {
        Some(c)
    } else {
        match add_var(c, local_name(ps[0].name, func), 1, seq![0i32]) {
            None => None,
            Some(c1) => collect_params(c1, ps.drop_first(), func),
        }
    }
}

/// The names of a function's parameters.
pub open spec fn param_names(ps: Seq<AParam>) -> Seq<Seq<char>> {
    Seq::new(ps.len(), |i: int| ps[i].name)
}

/// The size of a local variable: one cell for an `i32`, the UTF-8 bytes and a
/// terminating 0 for a string initialized by a literal (one cell otherwise),
/// the declared length for an array; sizes are taken modulo 2^32.
pub open spec fn local_size(typ: Type, e: AExpr) -> u32 {
    match typ {
        Type::I32 => 1,
        Type::StringType => match e {
            AExpr::Str(s) => ((encode_utf8(s).len() + 1) % 0x1_0000_0000) as u32,
            _ => 1,
        },
        Type::Array(_, n) => n as u32,
    }
}

/// The cells of a local `let` of function `func`, unless its name is already
/// reserved; nested blocks are searched too.
pub open spec fn collect_local(c: Coll, s: AStmt, func: Seq<char>) -> Option<Coll>
    decreases s, 0nat,
{
    match s {
        AStmt::Let(name, typ, e) => {
            let m = local_name(name, func);
            if table_get(c.symbols, m) is Some {
                Some(c)
            } else {
                let size = local_size(typ, e);
                add_var(c, m, size, zero_words(size as nat))
            }
        },
        AStmt::If(_, t, els) => match collect_locals(c, t, func) {
            None => None,
            Some(c1) => match els {
                Some(eb) => collect_locals(c1, eb, func),
                None => Some(c1),
            },
        },
        AStmt::While(_, b) => collect_locals(c, b, func),
        _ => Some(c),
    }
}

/// The cells of the local variables of a block, in order.
pub open spec fn collect_locals(c: Coll, stmts: Seq<AStmt>, func: Seq<char>) -> Option<Coll>
    decreases stmts, 1nat,
{
    if stmts.len() == 0 {
        Some(c)
    } else {
        match collect_local(c, stmts[0], func) {
            None => None,
            Some(c1) => collect_locals(c1, stmts.subrange(1, stmts.len() as int), func),
        }
    }
}

/// The cells of a function: its return cell if it returns a value, its
/// parameters, the entry of its parameter names, then its locals.
pub open spec fn collect_function(c: Coll, f: AFunc) -> Option<Coll> {
    let c1 = if f.return_type is Some {
        add_var(c, ret_name(f.name), 1, seq![0i32])
    } else {
        Some(c)
    };
    match c1 {
        None => None,
        Some(c1) => match collect_params(c1, f.params, f.name) {
            None => None,
            Some(c2) => collect_locals(
                Coll { params: table_insert(c2.params, f.name, param_names(f.params)), ..c2 },
                f.body,
                f.name,
            ),
        },
    }
}

/// The cells of the functions, in order.
pub open spec fn collect_functions(c: Coll, fs: Seq<AFunc>) -> Option<Coll>
    decreases fs.len(),
{
    if fs.len() == 0 {
        Some(c)
    } else {
        match collect_function(c, fs[0]) {
            None => None,
            Some(c1) => collect_functions(c1, fs.drop_first()),
        }
    }
}

/// One cell each for `prefix0` .. `prefix(n-1)`.
pub open spec fn collect_numbered(c: Coll, prefix: Seq<char>, n: nat) -> Option<Coll>
    decreases n,
{
    if n == 0 {
        Some(c)
    } else {
        match collect_numbered(c, prefix, (n - 1) as nat) {
            None => None,
            Some(c1) => add_var(c1, prefix + dec_text((n - 1) as nat), 1, seq![0i32]),
        }
    }
}

/// The scratch cells: the value cell, then the operator, index and address
/// cells.
pub open spec fn collect_temps(c: Coll) -> Option<Coll> {
    match add_var(c, val_name(), 1, seq![0i32]) {
        None => None,
        Some(c1) => match collect_numbered(c1, "__tmp_"@, temp_count()) {
            None => None,
            Some(c2) => match collect_numbered(c2, "__tmp_idx_"@, temp_idx_count()) {
                None => None,
                Some(c3) => collect_numbered(c3, "__tmp_ptr_"@, temp_ptr_count()),
            },
        },
    }
}

/// All the data of a program: globals, then functions, then scratch cells,
/// from address 0 on.
pub open spec fn collect_program(s: AsmState, p: AProgram) -> Option<Coll> {
    let c0 = Coll { data: s.data, symbols: s.symbols, params: s.params, next: 0 };
    match collect_globals(c0, p.statements) {
        None => None,
        Some(c1) => match collect_functions(c1, p.functions) {
            None => None,
            Some(c2) => collect_temps(c2),
        },
    }
}

// ---------------------------------------------------------------------------
// Generating code.

/// The tables that code generation reads.
pub struct Env {
    pub symbols: Seq<(Seq<char>, u32)>,
    pub params: Seq<(Seq<char>, Seq<Seq<char>>)>,
}

/// The code generated so far and the label counter.
pub struct Gen {
    pub code: Seq<ACmd>,
    pub label: nat,
}

pub open spec fn ins(m: Mnemonic, o: AOperand) -> ACmd {
    ACmd::Instr(m, o)
}

pub open spec fn named(s: Seq<char>) -> AOperand {
    AOperand::Named(s)
}

pub open spec fn imm(v: i32) -> AOperand {
    AOperand::Immediate(v)
}

pub open spec fn op0(m: Mnemonic) -> ACmd {
    ACmd::Instr(m, AOperand::NoOperand)
}

/// `g` with `cs` appended to its code.
pub open spec fn emit(g: Gen, cs: Seq<ACmd>) -> Gen {
    Gen { code: g.code + cs, label: g.label }
}

/// Whether two more labels can be numbered.
pub open spec fn labels_left(g: Gen) -> bool {
    g.label + 2 <= usize::MAX
}

/// `g` with two labels taken.
pub open spec fn take_labels(g: Gen) -> Gen {
    Gen { code: g.code, label: g.label + 2 }
}

/// A variable's name as code refers to it: the function's own copy if there
/// is one, else the name itself.
pub open spec fn resolved_name(env: Env, name: Seq<char>, func: Seq<char>) -> Seq<char> {
    if table_get(env.symbols, local_name(name, func)) is Some {
        local_name(name, func)
    } else {
        name
    }
}

/// The instruction of an arithmetic or bitwise operator.
pub open spec fn arith_mnemonic(op: BinaryOp) -> Mnemonic {
    match op {
        BinaryOp::Add => Mnemonic::Add,
        BinaryOp::Sub => Mnemonic::Sub,
        BinaryOp::Mul => Mnemonic::Mul,
        BinaryOp::Div => Mnemonic::Div,
        BinaryOp::Rem => Mnemonic::Mod,
        BinaryOp::BitAnd => Mnemonic::And,
        BinaryOp::BitOr => Mnemonic::Or,
        _ => Mnemonic::Xor,
    }
}

/// Whether an operator is a comparison.
pub open spec fn is_comparison(op: BinaryOp) -> bool {
    op == BinaryOp::Eq || op == BinaryOp::NotEq || op == BinaryOp::Less || op == BinaryOp::LessEq
        || op == BinaryOp::Greater || op == BinaryOp::GreaterEq
}

/// The code that turns the flags of `CMP tmp` into 1 or 0, with labels
/// `t` and `e`. `>` jumps to the 1 on a clear negative flag, that is on a
/// difference that is not negative, so equal operands compare as greater:
/// `a > a` gives 1.
pub open spec fn compare_tail(op: BinaryOp, t: Seq<char>, e: Seq<char>) -> Seq<ACmd> {
    let one_on_jump = seq![ins(Mnemonic::Ld, imm(0)), ins(Mnemonic::Jmp, named(e)), ACmd::Label(t),
        ins(Mnemonic::Ld, imm(1)), ACmd::Label(e)];
    let zero_on_jump = seq![ins(Mnemonic::Ld, imm(1)), ins(Mnemonic::Jmp, named(e)), ACmd::Label(t),
        ins(Mnemonic::Ld, imm(0)), ACmd::Label(e)];
    match op {
        BinaryOp::Eq => seq![ins(Mnemonic::Jzs, named(t))] + one_on_jump,
        BinaryOp::NotEq => seq![ins(Mnemonic::Jzs, named(t))] + zero_on_jump,
        BinaryOp::Less => seq![ins(Mnemonic::Jns, named(t))] + one_on_jump,
        BinaryOp::LessEq => seq![ins(Mnemonic::Jzs, named(t)), ins(Mnemonic::Jns, named(t))] + one_on_jump,
        BinaryOp::Greater => seq![ins(Mnemonic::Jnc, named(t))] + one_on_jump,
        _ => seq![ins(Mnemonic::Jns, named(t))] + zero_on_jump,
    }
}

/// A comparison's result from the flags: `CMP tmp`, then the jumps that load 1
/// or 0.
pub open spec fn gen_compare(op: BinaryOp, tmp: Seq<char>, g: Gen) -> Option<Gen> {
    let g1 = emit(g, seq![ins(Mnemonic::Cmp, named(tmp))]);
    if !labels_left(g1) {
        None
    } else {
        let t = label_name(g1.label);
        let e = label_name(g1.label + 1);
        Some(emit(take_labels(g1), compare_tail(op, t, e)))
    }
}

/// The code of an expression: it leaves the value in the accumulator. `depth`
/// picks the scratch cells, so that nested operators do not share them.
pub open spec fn gen_expr(env: Env, e: AExpr, func: Seq<char>, depth: nat, g: Gen) -> Option<Gen>
    decreases e,
{
    match e {
        AExpr::Number(n) => Some(emit(g, seq![ins(Mnemonic::Ld, imm(n))])),
        AExpr::Str(_) => None,
        AExpr::Variable(name) => Some(emit(g, seq![ins(Mnemonic::Ld, named(resolved_name(env, name, func)))])),
        AExpr::Unary(op, inner) => if depth + 1 > usize::MAX {
            None
        } else {
            match gen_expr(env, *inner, func, depth + 1, g) {
                None => None,
                Some(g1) => match op {
                    UnaryOp::Neg => Some(emit(g1, seq![op0(Mnemonic::Neg)])),
                    UnaryOp::BitNot => Some(emit(g1, seq![op0(Mnemonic::Not)])),
                    UnaryOp::Not => if !labels_left(g1) {
                        None
                    } else {
                        let tmp = tmp_name(depth);
                        let t = label_name(g1.label);
                        let l = label_name(g1.label + 1);
                        Some(emit(take_labels(g1), seq![ins(Mnemonic::St, named(tmp)), ins(Mnemonic::Ld, imm(0)),
                            ins(Mnemonic::Cmp, named(tmp)), ins(Mnemonic::Jzs, named(t)), ins(Mnemonic::Ld, imm(0)),
                            ins(Mnemonic::Jmp, named(l)), ACmd::Label(t), ins(Mnemonic::Ld, imm(1)), ACmd::Label(l)]))
                    },
                },
            }
        },
        AExpr::Binary(l, op, r) => if op == BinaryOp::And || op == BinaryOp::Or {
            match gen_expr(env, *l, func, depth, g) {
                None => None,
                Some(g1) => if !labels_left(g1) {
                    None
                } else {
                    let jump = if op == BinaryOp::And { Mnemonic::Jzs } else { Mnemonic::Jzc };
                    let t = label_name(g1.label);
                    let x = label_name(g1.label + 1);
                    let g2 = emit(take_labels(g1), seq![ins(Mnemonic::Cmp, imm(0)), ins(jump, named(t))]);
                    match gen_expr(env, *r, func, depth, g2) {
                        None => None,
                        Some(g3) => {
                            let (first, second) = if op == BinaryOp::And { (1i32, 0i32) } else { (0i32, 1i32) };
                            Some(emit(g3, seq![ins(Mnemonic::Cmp, imm(0)), ins(jump, named(t)),
                                ins(Mnemonic::Ld, imm(first)), ins(Mnemonic::Jmp, named(x)), ACmd::Label(t),
                                ins(Mnemonic::Ld, imm(second)), ACmd::Label(x)]))
                        },
                    }
                },
            }
        } else if depth + 1 > usize::MAX {
            None
        } else {
            let tmp = tmp_name(depth);
            match gen_expr(env, *r, func, depth + 1, g) {
                None => None,
                Some(g1) => match gen_expr(env, *l, func, depth + 1, emit(g1, seq![ins(Mnemonic::St, named(tmp))])) {
                    None => None,
                    Some(g2) => if is_comparison(op) {
                        gen_compare(op, tmp, g2)
                    } else {
                        Some(emit(g2, seq![ins(arith_mnemonic(op), named(tmp))]))
                    },
                },
            }
        },
        AExpr::Call(name, args) => if name == "out"@ {
            if args.len() == 0 {
                Some(g)
            } else {
                match gen_expr(env, args[0], func, depth, g) {
                    None => None,
                    Some(g1) => Some(emit(g1, seq![ins(Mnemonic::St, AOperand::Addr(out_port()))])),
                }
            }
        } else if name == "in"@ {
            Some(emit(g, seq![ins(Mnemonic::Ld, AOperand::Addr(in_port()))]))
        } else {
            let pnames = match table_get(env.params, name) {
                Some(ps) => ps,
                None => Seq::empty(),
            };
            match gen_args(env, args, 0, pnames, name, func, depth, g) {
                None => None,
                Some(g1) => Some(emit(g1, seq![ins(Mnemonic::Call, named(name)), ins(Mnemonic::Ld, named(ret_name(name)))])),
            }
        },
        AExpr::ArrayInit(elems) => if elems.len() == 0 {
            Some(g)
        } else {
            gen_expr(env, elems[0], func, depth, g)
        },
        AExpr::ArrayAccess(name, index) => {
            let m = resolved_name(env, name, func);
            match table_get(env.symbols, m) {
                None => None,
                Some(base) => if depth + 1 > usize::MAX {
                    None
                } else {
                    match gen_expr(env, *index, func, depth + 1, g) {
                        None => None,
                        Some(g1) => Some(emit(g1, seq![ins(Mnemonic::St, named(idx_name(depth))),
                            ins(Mnemonic::Ld, imm(base as i32)), ins(Mnemonic::Add, named(idx_name(depth))),
                            ins(Mnemonic::St, named(ptr_name(depth))), ins(Mnemonic::Ldi, named(ptr_name(depth)))])),
                    }
                },
            }
        },
        AExpr::Grouping(inner) => gen_expr(env, *inner, func, depth, g),
    }
}

/// The code of call arguments from position `k` on: each value is stored in
/// the callee's parameter cell of the same position; an argument without a
/// parameter stops generation.
pub open spec fn gen_args(
    env: Env,
    args: Seq<AExpr>,
    k: nat,
    pnames: Seq<Seq<char>>,
    callee: Seq<char>,
    func: Seq<char>,
    depth: nat,
    g: Gen,
) -> Option<Gen>
    decreases args,
{
    if args.len() == 0 {
        Some(g)
    } else {
        match gen_expr(env, args[0], func, depth, g) {
            None => None,
            Some(g1) => if k >= pnames.len() {
                None
            } else {
                gen_args(
                    env,
                    args.subrange(1, args.len() as int),
                    k + 1,
                    pnames,
                    callee,
                    func,
                    depth,
                    emit(g1, seq![ins(Mnemonic::St, named(local_name(pnames[k as int], callee)))]),
                )
            },
        }
    }
}

/// The stores of an array initializer from position `k` on, into consecutive
/// cells from `base`.
pub open spec fn gen_elems(env: Env, elems: Seq<AExpr>, base: u32, k: nat, func: Seq<char>, depth: nat, g: Gen) -> Option<Gen>
    decreases elems.len(),
{
    if elems.len() == 0 {
        Some(g)
    } else {
        match gen_expr(env, elems[0], func, depth, g) {
            None => None,
            Some(g1) => if base + k > u32::MAX {
                None
            } else {
                gen_elems(env, elems.drop_first(), base, k + 1, func, depth,
                    emit(g1, seq![ins(Mnemonic::St, AOperand::Addr((base + k) as u32))]))
            },
        }
    }
}

/// The stores of a string's bytes from position `k` on, into consecutive
/// cells from `base`.
pub open spec fn gen_bytes(bytes: Seq<u8>, base: u32, k: nat, g: Gen) -> Option<Gen>
    decreases bytes.len(),
{
    if bytes.len() == 0 {
        Some(g)
    } else if base + k > u32::MAX {
        None
    } else {
        gen_bytes(bytes.drop_first(), base, k + 1,
            emit(g, seq![ins(Mnemonic::Ld, imm(bytes[0] as i32)), ins(Mnemonic::St, AOperand::Addr((base + k) as u32))]))
    }
}

/// The code of a `let` in function `func`: an array literal and a string
/// literal are stored cell by cell into the variable; any other value is
/// stored into its cell.
pub open spec fn gen_let(env: Env, name: Seq<char>, typ: Type, e: AExpr, func: Seq<char>, depth: nat, g: Gen) -> Option<Gen> {
    let m = local_name(name, func);
    match (typ, e) {
        (Type::Array(_, _), AExpr::ArrayInit(elems)) => match table_get(env.symbols, m) {
            None => None,
            Some(base) => gen_elems(env, elems, base, 0, func, depth, g),
        },
        (Type::StringType, AExpr::Str(s)) => match table_get(env.symbols, m) {
            None => None,
            Some(base) => gen_bytes(encode_utf8(s).push(0), base, 0, g),
        },
        _ => match gen_expr(env, e, func, depth, g) {
            None => None,
            Some(g1) => Some(emit(g1, seq![ins(Mnemonic::St, named(m))])),
        },
    }
}

/// The code of an assignment. An indexed one computes the value, then the
/// cell's address from the array's base address, and stores indirectly.
pub open spec fn gen_assign(env: Env, name: Seq<char>, index: Option<AExpr>, e: AExpr, func: Seq<char>, depth: nat, g: Gen) -> Option<Gen> {
    let m = resolved_name(env, name, func);
    match index {
        Some(idx) => match table_get(env.symbols, m) {
            None => None,
            Some(base) => match gen_expr(env, e, func, depth, g) {
                None => None,
                Some(g1) => if depth + 1 > usize::MAX {
                    None
                } else {
                    match gen_expr(env, idx, func, depth + 1, emit(g1, seq![ins(Mnemonic::St, named(val_name()))])) {
                        None => None,
                        Some(g2) => Some(emit(g2, seq![ins(Mnemonic::St, named(idx_name(depth))),
                            ins(Mnemonic::Ld, imm(base as i32)), ins(Mnemonic::Add, named(idx_name(depth))),
                            ins(Mnemonic::St, named(ptr_name(depth))), ins(Mnemonic::Ld, named(val_name())),
                            ins(Mnemonic::Sti, named(ptr_name(depth)))])),
                    }
                },
            },
        },
        None => match gen_expr(env, e, func, depth, g) {
            None => None,
            Some(g1) => Some(emit(g1, seq![ins(Mnemonic::St, named(m))])),
        },
    }
}

/// The code of a statement of function `func`.
pub open spec fn gen_stmt(env: Env, s: AStmt, func: Seq<char>, depth: nat, g: Gen) -> Option<Gen>
    decreases s, 0nat,
{
    match s {
        AStmt::Let(name, typ, e) => gen_let(env, name, typ, e, func, depth, g),
        AStmt::Assign(name, index, e) => gen_assign(env, name, index, e, func, depth, g),
        AStmt::If(c, t, els) => if !labels_left(g) {
            None
        } else {
            let el = label_name(g.label);
            let end = label_name(g.label + 1);
            match gen_expr(env, c, func, depth, take_labels(g)) {
                None => None,
                Some(g1) => match gen_stmts(env, t, func, depth, emit(g1, seq![ins(Mnemonic::Jzs, named(el))])) {
                    None => None,
                    Some(g2) => {
                        let g3 = emit(g2, seq![ins(Mnemonic::Jmp, named(end)), ACmd::Label(el)]);
                        match els {
                            Some(eb) => match gen_stmts(env, eb, func, depth, g3) {
                                None => None,
                                Some(g4) => Some(emit(g4, seq![ACmd::Label(end)])),
                            },
                            None => Some(emit(g3, seq![ACmd::Label(end)])),
                        }
                    },
                },
            }
        },
        AStmt::While(c, body) => if !labels_left(g) {
            None
        } else {
            let top = label_name(g.label);
            let end = label_name(g.label + 1);
            match gen_expr(env, c, func, depth, emit(take_labels(g), seq![ACmd::Label(top)])) {
                None => None,
                Some(g1) => match gen_stmts(env, body, func, depth, emit(g1, seq![ins(Mnemonic::Jzs, named(end))])) {
                    None => None,
                    Some(g2) => Some(emit(g2, seq![ins(Mnemonic::Jmp, named(top)), ACmd::Label(end)])),
                },
            }
        },
        AStmt::Return(e) => match e {
            Some(x) => match gen_expr(env, x, func, depth, g) {
                None => None,
                Some(g1) => Some(emit(g1, seq![ins(Mnemonic::St, named(ret_name(func))), op0(Mnemonic::Ret)])),
            },
            None => Some(emit(g, seq![op0(Mnemonic::Ret)])),
        },
        AStmt::Expr(e) => gen_expr(env, e, func, depth, g),
    }
}

/// The code of a block's statements, in order.
pub open spec fn gen_stmts(env: Env, stmts: Seq<AStmt>, func: Seq<char>, depth: nat, g: Gen) -> Option<Gen>
    decreases stmts, 1nat,
{
    if stmts.len() == 0 {
        Some(g)
    } else {
        match gen_stmt(env, stmts[0], func, depth, g) {
            None => None,
            Some(g1) => gen_stmts(env, stmts.subrange(1, stmts.len() as int), func, depth, g1),
        }
    }
}

/// The code of a function: its label, its body, and `HALT` for `main` or
/// `RET` for any other.
pub open spec fn gen_function(env: Env, f: AFunc, g: Gen) -> Option<Gen> {
    match gen_stmts(env, f.body, f.name, 0, emit(g, seq![ACmd::Label(f.name)])) {
        None => None,
        Some(g1) => Some(emit(g1, seq![if f.name == "main"@ { op0(Mnemonic::Halt) } else { op0(Mnemonic::Ret) }])),
    }
}

/// The position of the first function named `main`.
pub open spec fn main_index(fs: Seq<AFunc>) -> Option<nat>
    decreases fs.len(),
{
    if fs.len() == 0 {
        None
    } else if fs[0].name == "main"@ {
        Some(0)
    } else {
        match main_index(fs.drop_first()) {
            Some(i) => Some(i + 1),
            None => None,
        }
    }
}

/// The code of every function not named `main`, in order.
pub open spec fn gen_others(env: Env, fs: Seq<AFunc>, g: Gen) -> Option<Gen>
    decreases fs.len(),
{
    if fs.len() == 0 {
        Some(g)
    } else {
        let g1 = if fs[0].name == "main"@ { Some(g) } else { gen_function(env, fs[0], g) };
        match g1 {
            None => None,
            Some(g1) => gen_others(env, fs.drop_first(), g1),
        }
    }
}

/// The code of a program: the first `main` first, then the other functions.
pub open spec fn gen_program(env: Env, fs: Seq<AFunc>, g: Gen) -> Option<Gen> {
    let g1 = match main_index(fs) {
        Some(i) => gen_function(env, fs[i as int], g),
        None => Some(g),
    };
    match g1 {
        None => None,
        Some(g1) => gen_others(env, fs, g1),
    }
}


// ---------------------------------------------------------------------------
// Code generation only appends.

/// `h` continues `g`: its code starts with `g`'s code and its label counter
/// has not gone back.
pub open spec fn extends(g: Gen, h: Gen) -> bool {
    &&& g.code.len() <= h.code.len()
    &&& h.code.subrange(0, g.code.len() as int) == g.code
    &&& g.label <= h.label
}

proof fn lemma_extends_trans(a: Gen, b: Gen, c: Gen)
    requires
        extends(a, b),
        extends(b, c),
    ensures
        extends(a, c),
{
    assert(c.code.subrange(0, a.code.len() as int) =~= c.code.subrange(0, b.code.len() as int).subrange(0, a.code.len() as int));
}

proof fn lemma_emit_extends(g: Gen, cs: Seq<ACmd>)
    ensures
        extends(g, emit(g, cs)),
        extends(g, take_labels(g)),
{
    assert((g.code + cs).subrange(0, g.code.len() as int) =~= g.code);
    assert(g.code.subrange(0, g.code.len() as int) =~= g.code);
}

proof fn lemma_extends_refl(g: Gen)
    ensures
        extends(g, g),
{
    assert(g.code.subrange(0, g.code.len() as int) =~= g.code);
}

proof fn lemma_compare_extends(op: BinaryOp, tmp: Seq<char>, g: Gen)
    ensures
        gen_compare(op, tmp, g) matches Some(h) ==> extends(g, h),
{
    let g1 = emit(g, seq![ins(Mnemonic::Cmp, named(tmp))]);
    lemma_emit_extends(g, seq![ins(Mnemonic::Cmp, named(tmp))]);
    if labels_left(g1) {
        let t = label_name(g1.label);
        let e = label_name(g1.label + 1);
        lemma_emit_extends(g1, Seq::empty());
        lemma_emit_extends(take_labels(g1), compare_tail(op, t, e));
        lemma_extends_trans(g1, take_labels(g1), emit(take_labels(g1), compare_tail(op, t, e)));
        lemma_extends_trans(g, g1, emit(take_labels(g1), compare_tail(op, t, e)));
    }
}

/// The code of an expression continues the code before it.
pub proof fn lemma_expr_extends(env: Env, e: AExpr, func: Seq<char>, depth: nat, g: Gen)
    ensures
        gen_expr(env, e, func, depth, g) matches Some(h) ==> extends(g, h),
    decreases e, 1nat,
{
    lemma_extends_refl(g);
    match e {
        AExpr::Number(n) => {
            lemma_emit_extends(g, seq![ins(Mnemonic::Ld, imm(n))]);
        },
        AExpr::Variable(name) => {
            lemma_emit_extends(g, seq![ins(Mnemonic::Ld, named(resolved_name(env, name, func)))]);
        },
        AExpr::Unary(_, _) => {
            lemma_unary_extends(env, e, func, depth, g);
        },
        AExpr::Binary(_, _, _) => {
            lemma_binary_extends(env, e, func, depth, g);
        },
        AExpr::Call(_, _) => {
            lemma_call_extends(env, e, func, depth, g);
        },
        AExpr::ArrayInit(elems) => {
            if elems.len() > 0 {
                lemma_expr_extends(env, elems[0], func, depth, g);
            }
        },
        AExpr::ArrayAccess(name, index) => {
            lemma_expr_extends(env, *index, func, depth + 1, g);
            if let Some(g1) = gen_expr(env, *index, func, depth + 1, g) {
                if let Some(base) = table_get(env.symbols, resolved_name(env, name, func)) {
                    let cs = seq![ins(Mnemonic::St, named(idx_name(depth))),
                        ins(Mnemonic::Ld, imm(base as i32)), ins(Mnemonic::Add, named(idx_name(depth))),
                        ins(Mnemonic::St, named(ptr_name(depth))), ins(Mnemonic::Ldi, named(ptr_name(depth)))];
                    lemma_emit_extends(g1, cs);
                    lemma_extends_trans(g, g1, emit(g1, cs));
                }
            }
        },
        AExpr::Grouping(inner) => {
            lemma_expr_extends(env, *inner, func, depth, g);
        },
        AExpr::Str(_) => {},
    }
}

proof fn lemma_unary_extends(env: Env, e: AExpr, func: Seq<char>, depth: nat, g: Gen)
    requires
        e is Unary,
    ensures
        gen_expr(env, e, func, depth, g) matches Some(h) ==> extends(g, h),
    decreases e, 0nat,
{
    if let AExpr::Unary(op, inner) = e {
        lemma_expr_extends(env, *inner, func, depth + 1, g);
        if let Some(g1) = gen_expr(env, *inner, func, depth + 1, g) {
            let tmp = tmp_name(depth);
            let t = label_name(g1.label);
            let l = label_name(g1.label + 1);
            let cs = seq![ins(Mnemonic::St, named(tmp)), ins(Mnemonic::Ld, imm(0)),
                ins(Mnemonic::Cmp, named(tmp)), ins(Mnemonic::Jzs, named(t)), ins(Mnemonic::Ld, imm(0)),
                ins(Mnemonic::Jmp, named(l)), ACmd::Label(t), ins(Mnemonic::Ld, imm(1)), ACmd::Label(l)];
            lemma_emit_extends(g1, seq![op0(Mnemonic::Neg)]);
            lemma_emit_extends(g1, seq![op0(Mnemonic::Not)]);
            lemma_emit_extends(g1, Seq::empty());
            lemma_emit_extends(take_labels(g1), cs);
            lemma_extends_trans(g1, take_labels(g1), emit(take_labels(g1), cs));
            lemma_extends_trans(g, g1, emit(g1, seq![op0(Mnemonic::Neg)]));
            lemma_extends_trans(g, g1, emit(g1, seq![op0(Mnemonic::Not)]));
            lemma_extends_trans(g, g1, emit(take_labels(g1), cs));
        }
    }
}

proof fn lemma_binary_extends(env: Env, e: AExpr, func: Seq<char>, depth: nat, g: Gen)
    requires
        e is Binary,
    ensures
        gen_expr(env, e, func, depth, g) matches Some(h) ==> extends(g, h),
    decreases e, 0nat,
{
    if let AExpr::Binary(l, op, r) = e {
        if op == BinaryOp::And || op == BinaryOp::Or {
            lemma_expr_extends(env, *l, func, depth, g);
            if let Some(g1) = gen_expr(env, *l, func, depth, g) {
                let jump = if op == BinaryOp::And { Mnemonic::Jzs } else { Mnemonic::Jzc };
                let t = label_name(g1.label);
                let x = label_name(g1.label + 1);
                let g2 = emit(take_labels(g1), seq![ins(Mnemonic::Cmp, imm(0)), ins(jump, named(t))]);
                lemma_emit_extends(g1, Seq::empty());
                lemma_emit_extends(take_labels(g1), seq![ins(Mnemonic::Cmp, imm(0)), ins(jump, named(t))]);
                lemma_extends_trans(g1, take_labels(g1), g2);
                lemma_extends_trans(g, g1, g2);
                lemma_expr_extends(env, *r, func, depth, g2);
                if let Some(g3) = gen_expr(env, *r, func, depth, g2) {
                    let (first, second) = if op == BinaryOp::And { (1i32, 0i32) } else { (0i32, 1i32) };
                    let cs = seq![ins(Mnemonic::Cmp, imm(0)), ins(jump, named(t)),
                        ins(Mnemonic::Ld, imm(first)), ins(Mnemonic::Jmp, named(x)), ACmd::Label(t),
                        ins(Mnemonic::Ld, imm(second)), ACmd::Label(x)];
                    lemma_emit_extends(g3, cs);
                    lemma_extends_trans(g, g2, g3);
                    lemma_extends_trans(g, g3, emit(g3, cs));
                }
            }
        } else {
            let tmp = tmp_name(depth);
            lemma_expr_extends(env, *r, func, depth + 1, g);
            if let Some(g1) = gen_expr(env, *r, func, depth + 1, g) {
                let g1s = emit(g1, seq![ins(Mnemonic::St, named(tmp))]);
                lemma_emit_extends(g1, seq![ins(Mnemonic::St, named(tmp))]);
                lemma_extends_trans(g, g1, g1s);
                lemma_expr_extends(env, *l, func, depth + 1, g1s);
                if let Some(g2) = gen_expr(env, *l, func, depth + 1, g1s) {
                    lemma_extends_trans(g, g1s, g2);
                    lemma_compare_extends(op, tmp, g2);
                    if let Some(g3) = gen_compare(op, tmp, g2) {
                        lemma_extends_trans(g, g2, g3);
                    }
                    lemma_emit_extends(g2, seq![ins(arith_mnemonic(op), named(tmp))]);
                    lemma_extends_trans(g, g2, emit(g2, seq![ins(arith_mnemonic(op), named(tmp))]));
                }
            }
        }
    }
}

proof fn lemma_call_extends(env: Env, e: AExpr, func: Seq<char>, depth: nat, g: Gen)
    requires
        e is Call,
    ensures
        gen_expr(env, e, func, depth, g) matches Some(h) ==> extends(g, h),
    decreases e, 0nat,
{
    lemma_extends_refl(g);
    if let AExpr::Call(name, args) = e {
        if name == "out"@ {
            if args.len() > 0 {
                lemma_expr_extends(env, args[0], func, depth, g);
                if let Some(g1) = gen_expr(env, args[0], func, depth, g) {
                    lemma_emit_extends(g1, seq![ins(Mnemonic::St, AOperand::Addr(out_port()))]);
                    lemma_extends_trans(g, g1, emit(g1, seq![ins(Mnemonic::St, AOperand::Addr(out_port()))]));
                }
            }
        } else if name == "in"@ {
            lemma_emit_extends(g, seq![ins(Mnemonic::Ld, AOperand::Addr(in_port()))]);
        } else {
            let pnames = match table_get(env.params, name) {
                Some(ps) => ps,
                None => Seq::empty(),
            };
            lemma_args_extends(env, args, 0, pnames, name, func, depth, g);
            if let Some(g1) = gen_args(env, args, 0, pnames, name, func, depth, g) {
                let cs = seq![ins(Mnemonic::Call, named(name)), ins(Mnemonic::Ld, named(ret_name(name)))];
                lemma_emit_extends(g1, cs);
                lemma_extends_trans(g, g1, emit(g1, cs));
            }
        }
    }
}

/// The code of call arguments continues the code before it.
pub proof fn lemma_args_extends(
    env: Env,
    args: Seq<AExpr>,
    k: nat,
    pnames: Seq<Seq<char>>,
    callee: Seq<char>,
    func: Seq<char>,
    depth: nat,
    g: Gen,
)
    ensures
        gen_args(env, args, k, pnames, callee, func, depth, g) matches Some(h) ==> extends(g, h),
    decreases args, 2nat,
{
    lemma_extends_refl(g);
    if args.len() > 0 {
        lemma_expr_extends(env, args[0], func, depth, g);
        if let Some(g1) = gen_expr(env, args[0], func, depth, g) {
            if k < pnames.len() {
                let cs = seq![ins(Mnemonic::St, named(local_name(pnames[k as int], callee)))];
                let g2 = emit(g1, cs);
                lemma_emit_extends(g1, cs);
                lemma_extends_trans(g, g1, g2);
                lemma_args_extends(env, args.subrange(1, args.len() as int), k + 1, pnames, callee, func, depth, g2);
                if let Some(h) = gen_args(env, args.subrange(1, args.len() as int), k + 1, pnames, callee, func, depth, g2) {
                    lemma_extends_trans(g, g2, h);
                }
            }
        }
    }
}


proof fn lemma_elems_extends(env: Env, elems: Seq<AExpr>, base: u32, k: nat, func: Seq<char>, depth: nat, g: Gen)
    ensures
        gen_elems(env, elems, base, k, func, depth, g) matches Some(h) ==> extends(g, h),
    decreases elems.len(),
{
    lemma_extends_refl(g);
    if elems.len() > 0 {
        lemma_expr_extends(env, elems[0], func, depth, g);
        if let Some(g1) = gen_expr(env, elems[0], func, depth, g) {
            if base + k <= u32::MAX {
                let cs = seq![ins(Mnemonic::St, AOperand::Addr((base + k) as u32))];
                lemma_emit_extends(g1, cs);
                lemma_extends_trans(g, g1, emit(g1, cs));
                lemma_elems_extends(env, elems.drop_first(), base, k + 1, func, depth, emit(g1, cs));
                if let Some(h) = gen_elems(env, elems.drop_first(), base, k + 1, func, depth, emit(g1, cs)) {
                    lemma_extends_trans(g, emit(g1, cs), h);
                }
            }
        }
    }
}

proof fn lemma_bytes_extends(bytes: Seq<u8>, base: u32, k: nat, g: Gen)
    ensures
        gen_bytes(bytes, base, k, g) matches Some(h) ==> extends(g, h),
    decreases bytes.len(),
{
    lemma_extends_refl(g);
    if bytes.len() > 0 && base + k <= u32::MAX {
        let cs = seq![ins(Mnemonic::Ld, imm(bytes[0] as i32)), ins(Mnemonic::St, AOperand::Addr((base + k) as u32))];
        lemma_emit_extends(g, cs);
        lemma_bytes_extends(bytes.drop_first(), base, k + 1, emit(g, cs));
        if let Some(h) = gen_bytes(bytes.drop_first(), base, k + 1, emit(g, cs)) {
            lemma_extends_trans(g, emit(g, cs), h);
        }
    }
}

proof fn lemma_store_extends(env: Env, e: AExpr, target: Seq<char>, func: Seq<char>, depth: nat, g: Gen)
    ensures
        gen_expr(env, e, func, depth, g) matches Some(g1) ==> extends(g, emit(g1, seq![ins(Mnemonic::St, named(target))])),
{
    lemma_expr_extends(env, e, func, depth, g);
    if let Some(g1) = gen_expr(env, e, func, depth, g) {
        lemma_emit_extends(g1, seq![ins(Mnemonic::St, named(target))]);
        lemma_extends_trans(g, g1, emit(g1, seq![ins(Mnemonic::St, named(target))]));
    }
}

proof fn lemma_let_extends(env: Env, name: Seq<char>, typ: Type, e: AExpr, func: Seq<char>, depth: nat, g: Gen)
    ensures
        gen_let(env, name, typ, e, func, depth, g) matches Some(h) ==> extends(g, h),
{
    let m = local_name(name, func);
    lemma_store_extends(env, e, m, func, depth, g);
    match (typ, e) {
        (Type::Array(_, _), AExpr::ArrayInit(elems)) => {
            if let Some(base) = table_get(env.symbols, m) {
                lemma_elems_extends(env, elems, base, 0, func, depth, g);
            }
        },
        (Type::StringType, AExpr::Str(st)) => {
            if let Some(base) = table_get(env.symbols, m) {
                lemma_bytes_extends(encode_utf8(st).push(0), base, 0, g);
            }
        },
        _ => {},
    }
}

proof fn lemma_assign_extends(env: Env, name: Seq<char>, index: Option<AExpr>, e: AExpr, func: Seq<char>, depth: nat, g: Gen)
    ensures
        gen_assign(env, name, index, e, func, depth, g) matches Some(h) ==> extends(g, h),
{
    let m = resolved_name(env, name, func);
    lemma_store_extends(env, e, m, func, depth, g);
    lemma_store_extends(env, e, val_name(), func, depth, g);
    if let Some(idx) = index {
        if let Some(g1) = gen_expr(env, e, func, depth, g) {
            let g1s = emit(g1, seq![ins(Mnemonic::St, named(val_name()))]);
            lemma_expr_extends(env, idx, func, depth + 1, g1s);
            if let Some(g2) = gen_expr(env, idx, func, depth + 1, g1s) {
                if let Some(base) = table_get(env.symbols, m) {
                    let cs = seq![ins(Mnemonic::St, named(idx_name(depth))),
                        ins(Mnemonic::Ld, imm(base as i32)), ins(Mnemonic::Add, named(idx_name(depth))),
                        ins(Mnemonic::St, named(ptr_name(depth))), ins(Mnemonic::Ld, named(val_name())),
                        ins(Mnemonic::Sti, named(ptr_name(depth)))];
                    lemma_emit_extends(g2, cs);
                    lemma_extends_trans(g, g1s, g2);
                    lemma_extends_trans(g, g2, emit(g2, cs));
                }
            }
        }
    }
}

/// The code of a statement continues the code before it.
pub proof fn lemma_stmt_extends(env: Env, s: AStmt, func: Seq<char>, depth: nat, g: Gen)
    ensures
        gen_stmt(env, s, func, depth, g) matches Some(h) ==> extends(g, h),
    decreases s, 0nat,
{
    lemma_extends_refl(g);
    match s {
        AStmt::Let(name, typ, e) => {
            lemma_let_extends(env, name, typ, e, func, depth, g);
        },
        AStmt::Assign(name, index, e) => {
            lemma_assign_extends(env, name, index, e, func, depth, g);
        },
        AStmt::If(c, t, els) => {
            if labels_left(g) {
                let el = label_name(g.label);
                let end = label_name(g.label + 1);
                lemma_emit_extends(g, Seq::empty());
                lemma_expr_extends(env, c, func, depth, take_labels(g));
                if let Some(g1) = gen_expr(env, c, func, depth, take_labels(g)) {
                    lemma_extends_trans(g, take_labels(g), g1);
                    let g1j = emit(g1, seq![ins(Mnemonic::Jzs, named(el))]);
                    lemma_emit_extends(g1, seq![ins(Mnemonic::Jzs, named(el))]);
                    lemma_extends_trans(g, g1, g1j);
                    lemma_stmts_extends(env, t, func, depth, g1j);
                    if let Some(g2) = gen_stmts(env, t, func, depth, g1j) {
                        lemma_extends_trans(g, g1j, g2);
                        let g3 = emit(g2, seq![ins(Mnemonic::Jmp, named(end)), ACmd::Label(el)]);
                        lemma_emit_extends(g2, seq![ins(Mnemonic::Jmp, named(end)), ACmd::Label(el)]);
                        lemma_extends_trans(g, g2, g3);
                        lemma_emit_extends(g3, seq![ACmd::Label(end)]);
                        lemma_extends_trans(g, g3, emit(g3, seq![ACmd::Label(end)]));
                        if let Some(eb) = els {
                            lemma_stmts_extends(env, eb, func, depth, g3);
                            if let Some(g4) = gen_stmts(env, eb, func, depth, g3) {
                                lemma_extends_trans(g, g3, g4);
                                lemma_emit_extends(g4, seq![ACmd::Label(end)]);
                                lemma_extends_trans(g, g4, emit(g4, seq![ACmd::Label(end)]));
                            }
                        }
                    }
                }
            }
        },
        AStmt::While(c, body) => {
            if labels_left(g) {
                let top = label_name(g.label);
                let end = label_name(g.label + 1);
                let g0 = emit(take_labels(g), seq![ACmd::Label(top)]);
                lemma_emit_extends(g, Seq::empty());
                lemma_emit_extends(take_labels(g), seq![ACmd::Label(top)]);
                lemma_extends_trans(g, take_labels(g), g0);
                lemma_expr_extends(env, c, func, depth, g0);
                if let Some(g1) = gen_expr(env, c, func, depth, g0) {
                    lemma_extends_trans(g, g0, g1);
                    let g1j = emit(g1, seq![ins(Mnemonic::Jzs, named(end))]);
                    lemma_emit_extends(g1, seq![ins(Mnemonic::Jzs, named(end))]);
                    lemma_extends_trans(g, g1, g1j);
                    lemma_stmts_extends(env, body, func, depth, g1j);
                    if let Some(g2) = gen_stmts(env, body, func, depth, g1j) {
                        lemma_extends_trans(g, g1j, g2);
                        let cs = seq![ins(Mnemonic::Jmp, named(top)), ACmd::Label(end)];
                        lemma_emit_extends(g2, cs);
                        lemma_extends_trans(g, g2, emit(g2, cs));
                    }
                }
            }
        },
        AStmt::Return(e) => {
            lemma_emit_extends(g, seq![op0(Mnemonic::Ret)]);
            if let Some(x) = e {
                lemma_expr_extends(env, x, func, depth, g);
                if let Some(g1) = gen_expr(env, x, func, depth, g) {
                    let cs = seq![ins(Mnemonic::St, named(ret_name(func))), op0(Mnemonic::Ret)];
                    lemma_emit_extends(g1, cs);
                    lemma_extends_trans(g, g1, emit(g1, cs));
                }
            }
        },
        AStmt::Expr(e) => {
            lemma_expr_extends(env, e, func, depth, g);
        },
    }
}

/// The code of statements continues the code before it.
pub proof fn lemma_stmts_extends(env: Env, stmts: Seq<AStmt>, func: Seq<char>, depth: nat, g: Gen)
    ensures
        gen_stmts(env, stmts, func, depth, g) matches Some(h) ==> extends(g, h),
    decreases stmts, 1nat,
{
    lemma_extends_refl(g);
    if stmts.len() > 0 {
        lemma_stmt_extends(env, stmts[0], func, depth, g);
        if let Some(g1) = gen_stmt(env, stmts[0], func, depth, g) {
            lemma_stmts_extends(env, stmts.subrange(1, stmts.len() as int), func, depth, g1);
            if let Some(h) = gen_stmts(env, stmts.subrange(1, stmts.len() as int), func, depth, g1) {
                lemma_extends_trans(g, g1, h);
            }
        }
    }
}

/// The code of a function starts with its label and continues the code
/// before it.
pub proof fn lemma_function_extends(env: Env, f: AFunc, g: Gen)
    ensures
        gen_function(env, f, g) matches Some(h) ==> extends(g, h) && h.code.len() > g.code.len()
            && h.code[g.code.len() as int] == ACmd::Label(f.name),
{
    let g0 = emit(g, seq![ACmd::Label(f.name)]);
    lemma_emit_extends(g, seq![ACmd::Label(f.name)]);
    lemma_stmts_extends(env, f.body, f.name, 0, g0);
    if let Some(g1) = gen_stmts(env, f.body, f.name, 0, g0) {
        let last = if f.name == "main"@ { op0(Mnemonic::Halt) } else { op0(Mnemonic::Ret) };
        lemma_emit_extends(g1, seq![last]);
        lemma_extends_trans(g0, g1, emit(g1, seq![last]));
        lemma_extends_trans(g, g0, emit(g1, seq![last]));
        let h = emit(g1, seq![last]);
        assert(h.code.subrange(0, g0.code.len() as int) == g0.code);
        assert(h.code[g.code.len() as int] == h.code.subrange(0, g0.code.len() as int)[g.code.len() as int]);
    }
}

proof fn lemma_others_extends(env: Env, fs: Seq<AFunc>, g: Gen)
    ensures
        gen_others(env, fs, g) matches Some(h) ==> extends(g, h),
    decreases fs.len(),
{
    lemma_extends_refl(g);
    if fs.len() > 0 {
        lemma_function_extends(env, fs[0], g);
        let g1 = if fs[0].name == "main"@ { Some(g) } else { gen_function(env, fs[0], g) };
        if let Some(g1) = g1 {
            lemma_others_extends(env, fs.drop_first(), g1);
            if let Some(h) = gen_others(env, fs.drop_first(), g1) {
                lemma_extends_trans(g, g1, h);
            }
        }
    }
}

/// The first `main` is at the position that `main_index` gives.
proof fn lemma_main_index(fs: Seq<AFunc>)
    ensures
        main_index(fs) matches Some(i) ==> i < fs.len() && fs[i as int].name == "main"@,
    decreases fs.len(),
{
    if fs.len() > 0 && fs[0].name != "main"@ {
        lemma_main_index(fs.drop_first());
    }
}

/// Code generation for a program that has a `main` and starts from empty
/// code puts `main`'s label first: the program's first code cell, where the
/// machine starts, is `main`'s first instruction.
pub proof fn lemma_main_first(env: Env, fs: Seq<AFunc>, label: nat)
    requires
        main_index(fs) is Some,
        gen_program(env, fs, Gen { code: Seq::empty(), label: label }) is Some,
    ensures
        ({
            let h = gen_program(env, fs, Gen { code: Seq::empty(), label: label })->0;
            h.code.len() > 0 && h.code[0] == ACmd::Label(fs[main_index(fs)->0 as int].name)
        }),
{
    let g = Gen { code: Seq::empty(), label: label };
    lemma_main_index(fs);
    let i = main_index(fs)->0;
    lemma_function_extends(env, fs[i as int], g);
    let g1 = gen_function(env, fs[i as int], g)->0;
    lemma_others_extends(env, fs, g1);
    let h = gen_others(env, fs, g1)->0;
    assert(h.code.subrange(0, g1.code.len() as int)[0] == h.code[0]);
}

// ---------------------------------------------------------------------------
// Emitting text and binary.

/// How many cells a command occupies: none for a label, one per word of a
/// data command, one for an instruction.
pub open spec fn cmd_size(c: ACmd) -> nat {
    match c {
        ACmd::Label(_) => 0,
        ACmd::Word(v) => v.len(),
        ACmd::Instr(_, _) => 1,
    }
}

/// The labels of the code with their addresses, the code starting at `addr`;
/// `None` if an address leaves 32 bits.
pub open spec fn label_entries(cmds: Seq<ACmd>, addr: nat) -> Option<Seq<(Seq<char>, u32)>>
    decreases cmds.len(),
{
    if cmds.len() == 0 {
        Some(Seq::empty())
    } else {
        let next = addr + cmd_size(cmds[0]);
        if next > u32::MAX {
            None
        } else {
            match label_entries(cmds.drop_first(), next) {
                None => None,
                Some(rest) => match cmds[0] {
                    ACmd::Label(n) => Some(seq![(n, addr as u32)] + rest),
                    _ => Some(rest),
                },
            }
        }
    }
}

/// A value as the data section shows it: `0x` and the upper-case hex digits
/// of its 32 bits.
pub open spec fn word_hex(v: i32) -> Seq<char> {
    "0x"@ + hex_text((v as u32) as nat)
}

/// The bytes of data words, four little-endian bytes each.
pub open spec fn words_bytes(vs: Seq<i32>) -> Seq<u8>
    decreases vs.len(),
{
    if vs.len() == 0 {
        Seq::empty()
    } else {
        le_bytes(vs[0] as u32) + words_bytes(vs.drop_first())
    }
}

/// The line of a data command at address `addr`: the name there (or
/// `__data`), `: word ` and the values in hex separated by `, `.
pub open spec fn data_line(symbols: Seq<(Seq<char>, u32)>, addr: u32, vs: Seq<i32>) -> Seq<char> {
    let name = match name_at(symbols, addr) {
        Some(n) => n,
        None => "__data"@,
    };
    name + ": word "@ + join(Seq::new(vs.len(), |i: int| word_hex(vs[i])), ", "@) + "\n"@
}

/// The data section from address `addr` on: the lines of the data commands
/// and their bytes; `None` if an address leaves 32 bits.
pub open spec fn emit_data(symbols: Seq<(Seq<char>, u32)>, data: Seq<ACmd>, addr: u32) -> Option<(Seq<char>, Seq<u8>)>
    decreases data.len(),
{
    if data.len() == 0 {
        Some((Seq::empty(), Seq::empty()))
    } else {
        match data[0] {
            ACmd::Word(vs) => if addr + (vs.len() as u32) > u32::MAX {
                None
            } else {
                match emit_data(symbols, data.drop_first(), (addr + (vs.len() as u32)) as u32) {
                    None => None,
                    Some((t, b)) => Some((data_line(symbols, addr, vs) + t, words_bytes(vs) + b)),
                }
            },
            _ => emit_data(symbols, data.drop_first(), addr),
        }
    }
}

/// The text of the code: `name:` lines for labels and one line per
/// instruction.
pub open spec fn code_text(cmds: Seq<ACmd>) -> Seq<char>
    decreases cmds.len(),
{
    if cmds.len() == 0 {
        Seq::empty()
    } else {
        let first = match cmds[0] {
            ACmd::Label(n) => n + ":\n"@,
            ACmd::Instr(m, o) => instr_text(m, o),
            ACmd::Word(_) => Seq::empty(),
        };
        first + code_text(cmds.drop_first())
    }
}

/// The bytes of the code: one instruction word per instruction, with names
/// resolved in `table`.
pub open spec fn code_bytes(cmds: Seq<ACmd>, table: Seq<(Seq<char>, u32)>) -> Seq<u8>
    decreases cmds.len(),
{
    if cmds.len() == 0 {
        Seq::empty()
    } else {
        let first = match cmds[0] {
            ACmd::Label(_) => Seq::empty(),
            ACmd::Instr(m, o) => le_bytes(instr_word(m, o, table)),
            ACmd::Word(vs) => words_bytes(vs),
        };
        first + code_bytes(cmds.drop_first(), table)
    }
}

/// Emission: names resolve to the symbols' addresses, then to the labels'
/// addresses (code starts after the data); the text gets the data section
/// and the code section, the binary the data words and the instruction words.
pub open spec fn emit_program(s: AsmState) -> Option<AsmState> {
    match label_entries(s.code, s.data_addr as nat) {
        None => None,
        Some(ents) => match emit_data(s.symbols, s.data, 0) {
            None => None,
            Some((dt, db)) => Some(AsmState {
                text: s.text + "\t.data\n"@ + dt + "\n\t.code\n"@ + code_text(s.code),
                binary: s.binary + db + code_bytes(s.code, s.symbols + ents),
                ..s
            }),
        },
    }
}

/// What compiling a program does to the assembler's state: reserve the data,
/// generate the code, emit text and binary.
pub open spec fn compile_model(s: AsmState, p: AProgram) -> Option<AsmState> {
    match collect_program(s, p) {
        None => None,
        Some(c) => {
            let env = Env { symbols: c.symbols, params: c.params };
            match gen_program(env, p.functions, Gen { code: s.code, label: s.label }) {
                None => None,
                Some(g) => emit_program(AsmState {
                    data: c.data,
                    code: g.code,
                    symbols: c.symbols,
                    params: c.params,
                    data_addr: c.next,
                    label: g.label,
                    text: s.text,
                    binary: s.binary,
                }),
            }
        },
    }
}


/// The tables behave as maps: after binding `name` to `v`, looking `name` up
/// gives `v`, looking up any other name gives what it gave before, and the
/// table grows by one entry only when `name` was not bound.
pub proof fn lemma_table_insert_get<V>(t: Seq<(Seq<char>, V)>, name: Seq<char>, v: V, other: Seq<char>)
    ensures
        table_get(table_insert(t, name, v), name) == Some(v),
        other != name ==> table_get(table_insert(t, name, v), other) == table_get(t, other),
        table_insert(t, name, v).len() == if table_get(t, name) is Some { t.len() } else { t.len() + 1 },
    decreases t.len(),
{
    if t.len() > 0 && t[0].0 != name {
        lemma_table_insert_get(t.drop_first(), name, v, other);
        let r = table_insert(t, name, v);
        assert(r.drop_first() =~= table_insert(t.drop_first(), name, v));
        assert(r[0] == t[0]);
        assert(r.len() > 0);
        if other != name {
            assert(table_get(r, other) == if t[0].0 == other { Some(t[0].1) } else { table_get(r.drop_first(), other) });
            assert(table_get(t, other) == if t[0].0 == other { Some(t[0].1) } else { table_get(t.drop_first(), other) });
        }
    } else if t.len() > 0 {
        let r = table_insert(t, name, v);
        assert(r.drop_first() =~= t.drop_first());
        assert(r[0] == (name, v));
        if other != name {
            assert(table_get(r, other) == table_get(r.drop_first(), other));
            assert(table_get(t, other) == table_get(t.drop_first(), other));
        }
    } else {
        let r = seq![(name, v)];
        assert(r.drop_first() =~= Seq::<(Seq<char>, V)>::empty());
        if other != name {
            assert(table_get(r, other) == table_get(r.drop_first(), other));
        }
    }
}

/// Where global data goes: a variable takes the next free address, and the
/// free address moves past its cells: one for an `i32`, the declared count for
/// an array, and the UTF-8 bytes plus a terminating 0 for a string
/// initialized with a literal (each count taken as a `u32`).
pub proof fn lemma_global_layout(c: Coll, name: Seq<char>, typ: Type, e: AExpr)
    requires
        collect_global(c, AStmt::Let(name, typ, e)) is Some,
    ensures
        ({
            let c2 = collect_global(c, AStmt::Let(name, typ, e))->0;
            &&& table_get(c2.symbols, name) == Some(c.next)
            &&& c2.data.len() == c.data.len() + 1
            &&& c2.data.subrange(0, c.data.len() as int) == c.data
            &&& c2.next as int == c.next as int + match typ {
                Type::I32 => 1int,
                Type::Array(_, n) => n as u32 as int,
                Type::StringType => match e {
                    AExpr::Str(text) => (encode_utf8(text).len() + 1) as u32 as int,
                    _ => 1int,
                },
            }
        }),
{
    lemma_table_insert_get(c.symbols, name, c.next, name);
    let c2 = collect_global(c, AStmt::Let(name, typ, e))->0;
    assert(c2.data.subrange(0, c.data.len() as int) =~= c.data);
}

} // verus!
