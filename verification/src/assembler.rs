//! The assembler: reserves data for a program's variables, generates code for
//! its functions, and emits the assembly text and the binary image. Every step
//! is proved to do what the model in `codegen` says.
use vstd::prelude::*;
use vstd::utf8::encode_utf8;
use vstd::string::StringExecFns;
use crate::ast::{Type, UnaryOp, BinaryOp, Expr, Statement, Block, Param, FunctionDecl, Program, exprs_view, stmts_view, params_view, funcs_view, lemma_exprs_view, lemma_stmts_view};
use crate::asm_cmd::{Mnemonic, Operand, Command, ACmd, AOperand, cmds_view, table_view, emit_text_command,
    emit_binary_command, push_le_bytes};
use crate::codegen::{AsmState, Coll, Env, Gen, ConstEval, table_get, table_insert, name_at, local_name, ret_name,
    label_name, val_name, out_port, in_port,
    const_binary, const_eval, const_values, zero_words, byte_words, add_var, collect_global, collect_globals,
    collect_params, param_names, collect_local, collect_locals, collect_function, collect_functions,
    collect_numbered, collect_temps, collect_program, ins, named, imm, op0, emit, labels_left, resolved_name, arith_mnemonic, compare_tail, gen_compare, gen_expr, gen_args, gen_elems, gen_bytes,
    gen_stmt, gen_stmts, gen_function, main_index, gen_others, gen_program, label_entries, word_hex, words_bytes, data_line, emit_data, code_text, code_bytes, emit_program, compile_model};
use crate::text::{dec_text, join, lemma_join_push, push_str, push_dec, push_hex};

verus! {

/// Code generation stopped where it cannot go on: a string literal used as a
/// value, an unknown array, more arguments than parameters, an address,
/// label number or nesting depth out of range, or a constant initializer
/// whose arithmetic overflows or divides by zero.
pub struct CodegenError {}

/// The assembler's state. The symbol table binds each name to its address
/// (a name bound again keeps its place and takes the new address); the
/// parameter table binds each function to its parameters' names.
pub struct Assembler {
    data_cmds: Vec<Command>,
    code_cmds: Vec<Command>,
    symbols: Vec<(String, u32)>,
    func_params: Vec<(String, Vec<String>)>,
    data_addr: u32,
    label_counter: usize,
    text: String,
    binary: Vec<u8>,
}

/// Strings as character sequences.
pub open spec fn strings_view(v: Seq<String>) -> Seq<Seq<char>> {
    Seq::new(v.len(), |i: int| v[i]@)
}

/// The parameter table as plain values.
pub open spec fn param_table_view(t: Seq<(String, Vec<String>)>) -> Seq<(Seq<char>, Seq<Seq<char>>)> {
    Seq::new(t.len(), |i: int| (t[i].0@, strings_view(t[i].1@)))
}

impl Assembler {
    /// The assembler's state as plain values.
    pub closed spec fn view(&self) -> AsmState {
        AsmState {
            data: cmds_view(self.data_cmds@),
            code: cmds_view(self.code_cmds@),
            symbols: table_view(self.symbols@),
            params: param_table_view(self.func_params@),
            data_addr: self.data_addr,
            label: self.label_counter as nat,
            text: self.text@,
            binary: self.binary@,
        }
    }
}

/// The state of a new assembler.
pub open spec fn fresh_asm() -> AsmState {
    AsmState {
        data: Seq::empty(),
        code: Seq::empty(),
        symbols: Seq::empty(),
        params: Seq::empty(),
        data_addr: 5,
        label: 0,
        text: Seq::empty(),
        binary: Seq::empty(),
    }
}

/// The tables that code generation reads in a state.
pub open spec fn env_of(s: AsmState) -> Env {
    Env { symbols: s.symbols, params: s.params }
}

/// The generated code and label counter of a state.
pub open spec fn gen_of(s: AsmState) -> Gen {
    Gen { code: s.code, label: s.label }
}

/// Everything but the code and the label counter is the same.
pub open spec fn frame(a: AsmState, b: AsmState) -> bool {
    &&& a.data == b.data
    &&& a.symbols == b.symbols
    &&& a.params == b.params
    &&& a.data_addr == b.data_addr
    &&& a.text == b.text
    &&& a.binary == b.binary
}

/// A generation step did what the model says: `Ok` with the model's code and
/// counter where the model goes on, `Err` where it stops.
pub open spec fn gen_matches(r: Result<(), CodegenError>, m: Option<Gen>, s: AsmState) -> bool {
    match m {
        Some(g) => r is Ok && gen_of(s) == g,
        None => r is Err,
    }
}

/// A reservation step did what the model says.
pub open spec fn coll_matches(r: Result<(), CodegenError>, m: Option<Coll>, s: AsmState) -> bool {
    match m {
        Some(c) => r is Ok && s.data == c.data && s.symbols == c.symbols && s.params == c.params && s.data_addr == c.next,
        None => r is Err,
    }
}

/// The reservation state of an assembler state.
pub open spec fn coll_of(s: AsmState) -> Coll {
    Coll { data: s.data, symbols: s.symbols, params: s.params, next: s.data_addr }
}

/// Looking up and inserting at the first entry of a name.
proof fn lemma_first_entry<V>(t: Seq<(Seq<char>, V)>, name: Seq<char>, i: int, v: V)
    requires
        0 <= i <= t.len(),
        forall|j: int| 0 <= j < i ==> t[j].0 != name,
        i < t.len() ==> t[i].0 == name,
    ensures
        table_get(t, name) == (if i < t.len() { Some(t[i].1) } else { None::<V> }),
        table_insert(t, name, v) == (if i < t.len() { t.update(i, (name, v)) } else { t.push((name, v)) }),
    decreases i,
{
    if t.len() == 0 {
        assert(seq![(name, v)] =~= t.push((name, v)));
    } else if i == 0 {
    } else {
        let r = t.drop_first();
        assert forall|j: int| 0 <= j < i - 1 implies r[j].0 != name by {
            assert(r[j] == t[j + 1]);
        }
        lemma_first_entry(r, name, i - 1, v);
        if i < t.len() {
            assert(seq![t[0]] + r.update(i - 1, (name, v)) =~= t.update(i, (name, v)));
        } else {
            assert(seq![t[0]] + r.push((name, v)) =~= t.push((name, v)));
        }
    }
}

/// The position of the first entry of `name`.
fn find_entry<V>(t: &Vec<(String, V)>, name: &String) -> (r: Option<usize>)
    ensures
        match r {
            Some(i) => i < t@.len() && t@[i as int].0@ == name@ && forall|j: int| 0 <= j < i ==> t@[j].0@ != name@,
            None => forall|j: int| 0 <= j < t@.len() ==> t@[j].0@ != name@,
        },
{
    let mut i: usize = 0;
    while i < t.len()
        invariant
            i <= t@.len(),
            forall|j: int| 0 <= j < i ==> t@[j].0@ != name@,
        decreases t@.len() - i,
    {
        if t[i].0 == *name {
            return Some(i);
        }
        i = i + 1;
    }
    None
}

/// A function's own copy of a name: `name_func`.
pub fn mangle(name: &str, func: &str) -> (s: String)
    ensures
        s@ == local_name(name@, func@),
{
    let mut s = String::new();
    push_str(&mut s, name);
    push_str(&mut s, "_");
    push_str(&mut s, func);
    assert(s@ =~= local_name(name@, func@));
    s
}

/// `prefix` followed by the decimal digits of `n`.
fn numbered(prefix: &str, n: usize) -> (s: String)
    ensures
        s@ == prefix@ + dec_text(n as nat),
{
    let mut s = String::new();
    push_str(&mut s, prefix);
    push_dec(&mut s, n as u64);
    assert(s@ =~= prefix@ + dec_text(n as nat));
    s
}

/// The cell that holds a function's return value.
fn ret_string(func: &str) -> (s: String)
    ensures
        s@ == ret_name(func@),
{
    let mut s = String::new();
    push_str(&mut s, func);
    push_str(&mut s, "_ret");
    assert(s@ =~= ret_name(func@));
    s
}

/// A copy of a string.
fn copy_string(s: &String) -> (r: String)
    ensures
        r@ == s@,
{
    s.clone()
}


/// Whether a string equals a literal.
fn is_named(s: &String, lit: &str) -> (b: bool)
    ensures
        b == (s@ == lit@),
{
    let l = String::from_str(lit);
    *s == l
}


/// The value of a binary operator on two constants.
fn eval_binary(op: BinaryOp, l: i32, r: i32) -> (v: ConstEval)
    ensures
        v == const_binary(op, l, r),
{
    let flag = |b: bool| -> (v: ConstEval)
        ensures
            v == (if b { ConstEval::Value(1) } else { ConstEval::Value(0) }),
        {
            if b {
                ConstEval::Value(1)
            } else {
                ConstEval::Value(0)
            }
        };
    match op {
        BinaryOp::Add => match l.checked_add(r) {
            Some(x) => ConstEval::Value(x),
            None => ConstEval::Fault,
        },
        BinaryOp::Sub => match l.checked_sub(r) {
            Some(x) => ConstEval::Value(x),
            None => ConstEval::Fault,
        },
        BinaryOp::Mul => match l.checked_mul(r) {
            Some(x) => ConstEval::Value(x),
            None => ConstEval::Fault,
        },
        BinaryOp::Div => match l.checked_div(r) {
            Some(x) => ConstEval::Value(x),
            None => ConstEval::Fault,
        },
        BinaryOp::Rem => match l.checked_rem(r) {
            Some(x) => ConstEval::Value(x),
            None => ConstEval::Fault,
        },
        BinaryOp::Eq => flag(l == r),
        BinaryOp::NotEq => flag(l != r),
        BinaryOp::Less => flag(l < r),
        BinaryOp::LessEq => flag(l <= r),
        BinaryOp::Greater => flag(l > r),
        BinaryOp::GreaterEq => flag(l >= r),
        BinaryOp::And => flag(l != 0 && r != 0),
        BinaryOp::Or => flag(l != 0 || r != 0),
        BinaryOp::BitAnd => ConstEval::Value(l & r),
        BinaryOp::BitOr => ConstEval::Value(l | r),
        BinaryOp::Xor => ConstEval::Value(l ^ r),
    }
}

/// The constant value of a global's initializer.
fn eval_i32_expr(expr: &Expr) -> (v: ConstEval)
    ensures
        v == const_eval(expr@),
    decreases expr,
{
    match expr {
        Expr::Number(n) => ConstEval::Value(*n),
        Expr::UnaryOp(op, inner) => match eval_i32_expr(inner) {
            ConstEval::Value(v) => match op {
                UnaryOp::Neg => if v == i32::MIN {
                    ConstEval::Fault
                } else {
                    ConstEval::Value(-v)
                },
                _ => ConstEval::Value(!v),
            },
            ConstEval::Unknown => ConstEval::Unknown,
            ConstEval::Fault => ConstEval::Fault,
        },
        Expr::BinaryOp(l, op, r) => match eval_i32_expr(l) {
            ConstEval::Value(a) => match eval_i32_expr(r) {
                ConstEval::Value(b) => eval_binary(*op, a, b),
                ConstEval::Unknown => ConstEval::Unknown,
                ConstEval::Fault => ConstEval::Fault,
            },
            ConstEval::Unknown => ConstEval::Unknown,
            ConstEval::Fault => ConstEval::Fault,
        },
        _ => ConstEval::Unknown,
    }
}

/// The initial values of an array literal's elements (0 for an element that
/// is no constant); `None` if one of them faults.
fn eval_elements(elems: &Vec<Expr>) -> (r: Option<Vec<i32>>)
    ensures
        match const_values(exprs_view(elems@)) {
            Some(vs) => r is Some && r->0@ == vs,
            None => r is None,
        },
{
    proof {
        lemma_exprs_view(elems@);
    }
    let ghost all = exprs_view(elems@);
    let mut out: Vec<i32> = Vec::new();
    let mut i: usize = 0;
    assert(all.subrange(0, all.len() as int) =~= all);
    assert(out@ + Seq::<i32>::empty() =~= out@);
    while i < elems.len()
        invariant
            i <= elems@.len(),
            all == exprs_view(elems@),
            all.len() == elems@.len(),
            forall|k: int| 0 <= k < elems@.len() ==> #[trigger] all[k] == elems@[k]@,
            const_values(all) == match const_values(all.subrange(i as int, all.len() as int)) {
                Some(rest) => Some(out@ + rest),
                None => None,
            },
        decreases elems@.len() - i,
    {
        let ghost rest = all.subrange(i as int, all.len() as int);
        assert(rest[0] == all[i as int]);
        assert(rest.drop_first() =~= all.subrange(i + 1, all.len() as int));
        let v = eval_i32_expr(&elems[i]);
        let x: i32 = match v {
            ConstEval::Fault => {
                return None;
            },
            ConstEval::Value(x) => x,
            ConstEval::Unknown => 0,
        };
        let ghost old_out = out@;
        out.push(x);
        proof {
            match const_values(all.subrange(i + 1, all.len() as int)) {
                Some(r2) => {
                    assert(old_out + (seq![x] + r2) =~= out@ + r2);
                },
                None => {},
            }
        }
        i = i + 1;
    }
    assert(out@ + Seq::<i32>::empty() =~= out@);
    Some(out)
}

/// A single word.
fn one_word(x: i32) -> (v: Vec<i32>)
    ensures
        v@ == seq![x],
{
    let mut v: Vec<i32> = Vec::new();
    v.push(x);
    assert(v@ =~= seq![x]);
    v
}

/// `n` zero words.
fn zeros(n: usize) -> (v: Vec<i32>)
    ensures
        v@ == zero_words(n as nat),
{
    let mut v: Vec<i32> = Vec::new();
    let mut i: usize = 0;
    while i < n
        invariant
            i <= n,
            v@ =~= zero_words(i as nat),
        decreases n - i,
    {
        v.push(0);
        i = i + 1;
    }
    v
}

/// The bytes of a string, one word each, and a terminating 0.
fn string_words(st: &String) -> (v: Vec<i32>)
    ensures
        v@ == byte_words(encode_utf8(st@)).push(0),
{
    let bytes = st.as_str().as_bytes();
    let mut v: Vec<i32> = Vec::new();
    let mut i: usize = 0;
    while i < bytes.len()
        invariant
            i <= bytes@.len(),
            bytes@ == encode_utf8(st@),
            v@ =~= byte_words(bytes@.subrange(0, i as int)),
        decreases bytes@.len() - i,
    {
        v.push(bytes[i] as i32);
        i = i + 1;
    }
    assert(bytes@.subrange(0, i as int) =~= bytes@);
    v.push(0);
    v
}

/// Reservation leaves the code, the label counter, the text and the binary
/// as they were.
pub open spec fn cframe(a: AsmState, b: AsmState) -> bool {
    &&& a.code == b.code
    &&& a.label == b.label
    &&& a.text == b.text
    &&& a.binary == b.binary
}

/// When a numbered run of reservations stops, the longer runs stop too.
proof fn lemma_numbered_stops(c: Coll, prefix: Seq<char>, i: nat, n: nat)
    requires
        i <= n,
        collect_numbered(c, prefix, i) is None,
    ensures
        collect_numbered(c, prefix, n) is None,
    decreases n,
{
    if n > i {
        lemma_numbered_stops(c, prefix, i, (n - 1) as nat);
    }
}


/// Looking up the first entry bound to an address.
proof fn lemma_first_at(t: Seq<(Seq<char>, u32)>, a: u32, i: int)
    requires
        0 <= i <= t.len(),
        forall|j: int| 0 <= j < i ==> t[j].1 != a,
        i < t.len() ==> t[i].1 == a,
    ensures
        name_at(t, a) == (if i < t.len() { Some(t[i].0) } else { None::<Seq<char>> }),
    decreases i,
{
    if t.len() > 0 && i > 0 {
        let r = t.drop_first();
        assert forall|j: int| 0 <= j < i - 1 implies r[j].1 != a by {
            assert(r[j] == t[j + 1]);
        }
        lemma_first_at(r, a, i - 1);
    }
}

/// The name bound to an address, if any.
fn find_name_at(t: &Vec<(String, u32)>, a: u32) -> (r: Option<usize>)
    ensures
        match r {
            Some(i) => i < t@.len() && name_at(table_view(t@), a) == Some(t@[i as int].0@),
            None => name_at(table_view(t@), a) is None,
        },
{
    let mut i: usize = 0;
    while i < t.len()
        invariant
            i <= t@.len(),
            forall|j: int| 0 <= j < i ==> t@[j].1 != a,
        decreases t@.len() - i,
    {
        if t[i].1 == a {
            proof {
                lemma_first_at(table_view(t@), a, i as int);
            }
            return Some(i);
        }
        i = i + 1;
    }
    proof {
        lemma_first_at(table_view(t@), a, t@.len() as int);
    }
    None
}

/// Appends the line of a data command at address `addr`.
fn push_data_line(out: &mut String, symbols: &Vec<(String, u32)>, addr: u32, vs: &Vec<i32>)
    ensures
        final(out)@ == old(out)@ + data_line(table_view(symbols@), addr, vs@),
{
    match find_name_at(symbols, addr) {
        Some(i) => push_str(out, symbols[i].0.as_str()),
        None => push_str(out, "__data"),
    }
    push_str(out, ": word ");
    let ghost start = out@;
    let ghost parts = Seq::new(vs@.len(), |k: int| word_hex(vs@[k]));
    let mut j: usize = 0;
    assert(parts.subrange(0, 0) =~= Seq::<Seq<char>>::empty());
    while j < vs.len()
        invariant
            j <= vs@.len(),
            parts == Seq::new(vs@.len(), |k: int| word_hex(vs@[k])),
            out@ == start + join(parts.subrange(0, j as int), ", "@),
        decreases vs@.len() - j,
    {
        if j > 0 {
            push_str(out, ", ");
        }
        push_str(out, "0x");
        push_hex(out, vs[j] as u32 as u64);
        proof {
            lemma_join_push(parts.subrange(0, j as int), parts[j as int], ", "@);
            assert(parts.subrange(0, j as int).push(parts[j as int]) =~= parts.subrange(0, j + 1));
            assert(out@ =~= start + join(parts.subrange(0, j + 1), ", "@));
        }
        j = j + 1;
    }
    assert(parts.subrange(0, j as int) =~= parts);
    push_str(out, "\n");
    proof {
        let name = match name_at(table_view(symbols@), addr) {
            Some(n) => n,
            None => "__data"@,
        };
        assert(final(out)@ =~= old(out)@ + data_line(table_view(symbols@), addr, vs@));
    }
}

/// Appends the bytes of data words.
fn push_words(out: &mut Vec<u8>, vs: &Vec<i32>)
    ensures
        final(out)@ == old(out)@ + words_bytes(vs@),
{
    let mut j: usize = 0;
    assert(vs@.subrange(0, vs@.len() as int) =~= vs@);
    assert(old(out)@ + Seq::<u8>::empty() =~= old(out)@);
    while j < vs.len()
        invariant
            j <= vs@.len(),
            old(out)@ + words_bytes(vs@) == out@ + words_bytes(vs@.subrange(j as int, vs@.len() as int)),
        decreases vs@.len() - j,
    {
        let ghost rest = vs@.subrange(j as int, vs@.len() as int);
        let ghost before = out@;
        assert(rest[0] == vs@[j as int]);
        assert(rest.drop_first() =~= vs@.subrange(j + 1, vs@.len() as int));
        push_le_bytes(out, vs[j] as u32);
        assert(before + words_bytes(rest) =~= out@ + words_bytes(vs@.subrange(j + 1, vs@.len() as int)));
        j = j + 1;
    }
    assert(out@ + Seq::<u8>::empty() =~= out@);
}

/// A copy of a symbol table.
fn copy_table(t: &Vec<(String, u32)>) -> (r: Vec<(String, u32)>)
    ensures
        table_view(r@) == table_view(t@),
{
    let mut r: Vec<(String, u32)> = Vec::new();
    let mut i: usize = 0;
    while i < t.len()
        invariant
            i <= t@.len(),
            r@.len() == i,
            forall|k: int| 0 <= k < i ==> #[trigger] r@[k].0@ == t@[k].0@ && r@[k].1 == t@[k].1,
        decreases t@.len() - i,
    {
        r.push((copy_string(&t[i].0), t[i].1));
        i = i + 1;
    }
    assert(table_view(r@) =~= table_view(t@));
    r
}

impl Default for Assembler {
    fn default() -> (a: Self)
        ensures
            a@ == fresh_asm(),
    {
        Self::new()
    }
}

impl Assembler {
    /// An empty assembler; its next data address is 5 until a program is
    /// compiled.
    pub fn new() -> (a: Self)
        ensures
            a@ == fresh_asm(),
    {
        let a = Assembler {
            data_cmds: Vec::new(),
            code_cmds: Vec::new(),
            symbols: Vec::new(),
            func_params: Vec::new(),
            data_addr: 5,
            label_counter: 0,
            text: String::new(),
            binary: Vec::new(),
        };
        assert(a@.data =~= Seq::<ACmd>::empty());
        assert(a@.code =~= Seq::<ACmd>::empty());
        assert(a@.symbols =~= Seq::<(Seq<char>, u32)>::empty());
        assert(a@.params =~= Seq::<(Seq<char>, Seq<Seq<char>>)>::empty());
        a
    }

    /// The binary, the assembly text and the data size.
    pub fn output_results(self) -> (r: (Vec<u8>, String, u32))
        ensures
            r.0@ == self@.binary,
            r.1@ == self@.text,
            r.2 == self@.data_addr,
    {
        (self.binary, self.text, self.data_addr)
    }

    /// The assembly text.
    pub fn output_text(&self) -> (r: &str)
        ensures
            r@ == self@.text,
    {
        self.text.as_str()
    }

    /// The binary image.
    pub fn output_binary(&self) -> (r: &[u8])
        ensures
            r@ == self@.binary,
    {
        self.binary.as_slice()
    }

    /// Appends a command to the code.
    fn emit(&mut self, c: Command)
        ensures
            frame(old(self)@, final(self)@),
            final(self)@.code == old(self)@.code.push(c@),
            final(self)@.label == old(self)@.label,
    {
        self.code_cmds.push(c);
        proof {
            assert(cmds_view(self.code_cmds@) =~= cmds_view(old(self).code_cmds@).push(c@));
        }
    }

    /// Appends an instruction to the code.
    fn emit_instr(&mut self, m: Mnemonic, o: Operand)
        ensures
            frame(old(self)@, final(self)@),
            final(self)@.code == old(self)@.code.push(ACmd::Instr(m, o@)),
            final(self)@.label == old(self)@.label,
    {
        self.emit(Command::Instr(m, o));
    }

    /// Whether two more labels can be numbered.
    fn labels_available(&self) -> (b: bool)
        ensures
            b == labels_left(gen_of(self@)),
    {
        self.label_counter <= usize::MAX - 2
    }

    /// A fresh label name.
    fn new_label(&mut self) -> (l: String)
        requires
            old(self).label_counter < usize::MAX,
        ensures
            l@ == label_name(old(self)@.label),
            frame(old(self)@, final(self)@),
            final(self)@.code == old(self)@.code,
            final(self)@.label == old(self)@.label + 1,
    {
        let mut l = String::new();
        push_str(&mut l, ".L");
        push_dec(&mut l, self.label_counter as u64);
        self.label_counter = self.label_counter + 1;
        assert(l@ =~= label_name(old(self)@.label));
        l
    }

    /// The address of a symbol.
    fn lookup_symbol(&self, name: &String) -> (r: Option<u32>)
        ensures
            r == table_get(self@.symbols, name@),
    {
        let f = find_entry(&self.symbols, name);
        proof {
            let t = table_view(self.symbols@);
            let i: int = match f {
                Some(i) => i as int,
                None => t.len() as int,
            };
            lemma_first_entry(t, name@, i, 0u32);
        }
        match f {
            Some(i) => Some(self.symbols[i].1),
            None => None,
        }
    }

    /// Binds a symbol to an address.
    fn insert_symbol(&mut self, name: String, addr: u32)
        ensures
            final(self)@ == (AsmState { symbols: table_insert(old(self)@.symbols, name@, addr), ..old(self)@ }),
    {
        let f = find_entry(&self.symbols, &name);
        let ghost t = table_view(self.symbols@);
        let ghost nv = name@;
        proof {
            let i: int = match f {
                Some(i) => i as int,
                None => t.len() as int,
            };
            lemma_first_entry(t, nv, i, addr);
        }
        match f {
            Some(i) => {
                self.symbols.set(i, (name, addr));
            },
            None => {
                self.symbols.push((name, addr));
            },
        }
        proof {
            assert(table_view(self.symbols@) =~= table_insert(t, nv, addr));
        }
    }

    /// The names of a function's parameters, none if it is unknown.
    fn param_names_of(&self, name: &String) -> (r: Vec<String>)
        ensures
            strings_view(r@) == match table_get(self@.params, name@) {
                Some(ps) => ps,
                None => Seq::empty(),
            },
    {
        let f = find_entry(&self.func_params, name);
        proof {
            let t = param_table_view(self.func_params@);
            let i: int = match f {
                Some(i) => i as int,
                None => t.len() as int,
            };
            lemma_first_entry(t, name@, i, Seq::empty());
        }
        let mut r: Vec<String> = Vec::new();
        match f {
            Some(i) => {
                let ps = &self.func_params[i].1;
                let mut j: usize = 0;
                while j < ps.len()
                    invariant
                        j <= ps@.len(),
                        r@.len() == j,
                        forall|k: int| 0 <= k < j ==> #[trigger] r@[k]@ == ps@[k]@,
                    decreases ps@.len() - j,
                {
                    let c = copy_string(&ps[j]);
                    r.push(c);
                    j = j + 1;
                }
                assert(strings_view(r@) =~= strings_view(ps@));
            },
            None => {
                assert(strings_view(r@) =~= Seq::<Seq<char>>::empty());
            },
        }
        r
    }

    /// Binds a function to its parameters' names.
    fn insert_params(&mut self, name: String, names: Vec<String>)
        ensures
            final(self)@ == (AsmState {
                params: table_insert(old(self)@.params, name@, strings_view(names@)),
                ..old(self)@
            }),
    {
        let f = find_entry(&self.func_params, &name);
        let ghost t = param_table_view(self.func_params@);
        let ghost nv = name@;
        let ghost pv = strings_view(names@);
        proof {
            let i: int = match f {
                Some(i) => i as int,
                None => t.len() as int,
            };
            lemma_first_entry(t, nv, i, pv);
        }
        match f {
            Some(i) => {
                self.func_params.set(i, (name, names));
            },
            None => {
                self.func_params.push((name, names));
            },
        }
        proof {
            assert(param_table_view(self.func_params@) =~= table_insert(t, nv, pv));
        }
    }

    /// Reserves `size` cells for `name` at the next free address, with the
    /// data command `words`.
    fn add_variable(&mut self, name: String, size: u32, words: Vec<i32>) -> (r: Result<(), CodegenError>)
        ensures
            cframe(old(self)@, final(self)@),
            coll_matches(r, add_var(coll_of(old(self)@), name@, size, words@), final(self)@),
    {
        if self.data_addr > u32::MAX - size {
            return Err(CodegenError {});
        }
        let addr = self.data_addr;
        self.insert_symbol(name, addr);
        self.data_addr = addr + size;
        let ghost wv = words@;
        self.data_cmds.push(Command::Word(words));
        proof {
            assert(cmds_view(self.data_cmds@) =~= cmds_view(old(self).data_cmds@).push(ACmd::Word(wv)));
        }
        Ok(())
    }

    /// Reserves the data of a global statement.
    fn collect_global(&mut self, s: &Statement) -> (r: Result<(), CodegenError>)
        ensures
            cframe(old(self)@, final(self)@),
            coll_matches(r, collect_global(coll_of(old(self)@), s@), final(self)@),
    {
        match s {
            Statement::Let(name, typ, e) => match typ {
                Type::I32 => match eval_i32_expr(e) {
                    ConstEval::Fault => Err(CodegenError {}),
                    ConstEval::Value(v) => self.add_variable(copy_string(name), 1, one_word(v)),
                    ConstEval::Unknown => self.add_variable(copy_string(name), 1, one_word(0)),
                },
                Type::StringType => {
                    let content = match e {
                        Expr::String(st) => string_words(st),
                        _ => one_word(0),
                    };
                    let size = content.len() as u32;
                    self.add_variable(copy_string(name), size, content)
                },
                Type::Array(_, size) => match e {
                    Expr::ArrayInit(elems) => match eval_elements(elems) {
                        Some(vals) => self.add_variable(copy_string(name), *size as u32, vals),
                        None => Err(CodegenError {}),
                    },
                    _ => {
                        let z = zeros(*size);
                        self.add_variable(copy_string(name), *size as u32, z)
                    },
                },
            },
            _ => Ok(()),
        }
    }

    /// Reserves the data of the global statements, in order.
    fn collect_globals(&mut self, stmts: &Vec<Statement>) -> (r: Result<(), CodegenError>)
        ensures
            cframe(old(self)@, final(self)@),
            coll_matches(r, collect_globals(coll_of(old(self)@), stmts_view(stmts@)), final(self)@),
    {
        proof {
            lemma_stmts_view(stmts@);
        }
        let ghost all = stmts_view(stmts@);
        let mut i: usize = 0;
        assert(all.subrange(0, all.len() as int) =~= all);
        while i < stmts.len()
            invariant
                cframe(old(self)@, self@),
                i <= stmts@.len(),
                all == stmts_view(stmts@),
                all.len() == stmts@.len(),
                forall|k: int| 0 <= k < stmts@.len() ==> #[trigger] all[k] == stmts@[k]@,
                collect_globals(coll_of(old(self)@), all)
                    == collect_globals(coll_of(self@), all.subrange(i as int, all.len() as int)),
            decreases stmts@.len() - i,
        {
            let ghost rest = all.subrange(i as int, all.len() as int);
            assert(rest[0] == all[i as int]);
            assert(rest.drop_first() =~= all.subrange(i + 1, all.len() as int));
            let r = self.collect_global(&stmts[i]);
            if r.is_err() {
                return Err(CodegenError {});
            }
            i = i + 1;
        }
        Ok(())
    }

    /// Reserves one cell per parameter of a function.
    fn collect_params(&mut self, ps: &Vec<Param>, func: &String) -> (r: Result<(), CodegenError>)
        ensures
            cframe(old(self)@, final(self)@),
            coll_matches(r, collect_params(coll_of(old(self)@), params_view(ps@), func@), final(self)@),
    {
        let ghost all = params_view(ps@);
        let mut i: usize = 0;
        assert(all.subrange(0, all.len() as int) =~= all);
        while i < ps.len()
            invariant
                cframe(old(self)@, self@),
                i <= ps@.len(),
                all == params_view(ps@),
                collect_params(coll_of(old(self)@), all, func@)
                    == collect_params(coll_of(self@), all.subrange(i as int, all.len() as int), func@),
            decreases ps@.len() - i,
        {
            let ghost rest = all.subrange(i as int, all.len() as int);
            assert(rest[0] == all[i as int]);
            assert(rest.drop_first() =~= all.subrange(i + 1, all.len() as int));
            let m = mangle(ps[i].name.as_str(), func.as_str());
            let r = self.add_variable(m, 1, one_word(0));
            if r.is_err() {
                return Err(CodegenError {});
            }
            i = i + 1;
        }
        Ok(())
    }

    /// Reserves the cells of the local variables of a statement.
    fn collect_local(&mut self, s: &Statement, func: &String) -> (r: Result<(), CodegenError>)
        ensures
            cframe(old(self)@, final(self)@),
            coll_matches(r, collect_local(coll_of(old(self)@), s@, func@), final(self)@),
        decreases s, 1nat,
    {
        match s {
            Statement::Let(name, typ, e) => {
                let m = mangle(name.as_str(), func.as_str());
                if self.lookup_symbol(&m).is_some() {
                    return Ok(());
                }
                let size: u32 = match typ {
                    Type::I32 => 1,
                    Type::StringType => match e {
                        Expr::String(st) => {
                            let n = st.as_str().as_bytes().len();
                            ((n as u128 + 1) % 0x1_0000_0000) as u32
                        },
                        _ => 1,
                    },
                    Type::Array(_, n) => *n as u32,
                };
                let z = zeros(size as usize);
                self.add_variable(m, size, z)
            },
            Statement::If(_, t, els) => {
                let r = self.collect_locals_in_block(t, func);
                if r.is_err() {
                    return Err(CodegenError {});
                }
                match els {
                    Some(eb) => self.collect_locals_in_block(eb, func),
                    None => Ok(()),
                }
            },
            Statement::While(_, b) => self.collect_locals_in_block(b, func),
            _ => Ok(()),
        }
    }

    /// Reserves the cells of the local variables of a block, nested blocks
    /// included.
    fn collect_locals_in_block(&mut self, block: &Block, func: &String) -> (r: Result<(), CodegenError>)
        ensures
            cframe(old(self)@, final(self)@),
            coll_matches(r, collect_locals(coll_of(old(self)@), block@, func@), final(self)@),
        decreases block, 3nat,
    {
        self.collect_locals_of(&block.statements, func)
    }

    /// Reserves the cells of the local variables of statements, in order.
    fn collect_locals_of(&mut self, stmts: &Vec<Statement>, func: &String) -> (r: Result<(), CodegenError>)
        ensures
            cframe(old(self)@, final(self)@),
            coll_matches(r, collect_locals(coll_of(old(self)@), stmts_view(stmts@), func@), final(self)@),
        decreases stmts, 2nat,
    {
        proof {
            lemma_stmts_view(stmts@);
        }
        let ghost all = stmts_view(stmts@);
        let mut i: usize = 0;
        assert(all.subrange(0, all.len() as int) =~= all);
        while i < stmts.len()
            invariant
                cframe(old(self)@, self@),
                i <= stmts@.len(),
                all == stmts_view(stmts@),
                all.len() == stmts@.len(),
                forall|k: int| 0 <= k < stmts@.len() ==> #[trigger] all[k] == stmts@[k]@,
                collect_locals(coll_of(old(self)@), all, func@)
                    == collect_locals(coll_of(self@), all.subrange(i as int, all.len() as int), func@),
            decreases stmts@.len() - i,
        {
            let ghost rest = all.subrange(i as int, all.len() as int);
            assert(rest[0] == all[i as int]);
            assert(rest.subrange(1, rest.len() as int) =~= all.subrange(i + 1, all.len() as int));
            let r = self.collect_local(&stmts[i], func);
            if r.is_err() {
                return Err(CodegenError {});
            }
            i = i + 1;
        }
        Ok(())
    }

    /// Reserves the cells of a function: return cell, parameters, locals;
    /// and records its parameters' names.
    fn collect_function(&mut self, f: &FunctionDecl) -> (r: Result<(), CodegenError>)
        ensures
            cframe(old(self)@, final(self)@),
            coll_matches(r, collect_function(coll_of(old(self)@), f@), final(self)@),
    {
        if f.return_type.is_some() {
            let r = self.add_variable(ret_string(f.name.as_str()), 1, one_word(0));
            if r.is_err() {
                return Err(CodegenError {});
            }
        }
        let r = self.collect_params(&f.params, &f.name);
        if r.is_err() {
            return Err(CodegenError {});
        }
        let mut names: Vec<String> = Vec::new();
        let mut i: usize = 0;
        while i < f.params.len()
            invariant
                i <= f.params@.len(),
                names@.len() == i,
                forall|k: int| 0 <= k < i ==> #[trigger] names@[k]@ == f.params@[k].name@,
            decreases f.params@.len() - i,
        {
            names.push(copy_string(&f.params[i].name));
            i = i + 1;
        }
        assert(strings_view(names@) =~= param_names(params_view(f.params@)));
        self.insert_params(copy_string(&f.name), names);
        self.collect_locals_in_block(&f.body, &f.name)
    }

    /// Reserves the cells of the functions, in order.
    fn collect_functions(&mut self, fs: &Vec<FunctionDecl>) -> (r: Result<(), CodegenError>)
        ensures
            cframe(old(self)@, final(self)@),
            coll_matches(r, collect_functions(coll_of(old(self)@), funcs_view(fs@)), final(self)@),
    {
        let ghost all = funcs_view(fs@);
        let mut i: usize = 0;
        assert(all.subrange(0, all.len() as int) =~= all);
        while i < fs.len()
            invariant
                cframe(old(self)@, self@),
                i <= fs@.len(),
                all == funcs_view(fs@),
                collect_functions(coll_of(old(self)@), all)
                    == collect_functions(coll_of(self@), all.subrange(i as int, all.len() as int)),
            decreases fs@.len() - i,
        {
            let ghost rest = all.subrange(i as int, all.len() as int);
            assert(rest[0] == all[i as int]);
            assert(rest.drop_first() =~= all.subrange(i + 1, all.len() as int));
            let r = self.collect_function(&fs[i]);
            if r.is_err() {
                return Err(CodegenError {});
            }
            i = i + 1;
        }
        Ok(())
    }

    /// Reserves one cell each for `prefix0` .. `prefix(n-1)`.
    fn collect_numbered(&mut self, prefix: &str, n: usize) -> (r: Result<(), CodegenError>)
        ensures
            cframe(old(self)@, final(self)@),
            coll_matches(r, collect_numbered(coll_of(old(self)@), prefix@, n as nat), final(self)@),
    {
        let mut i: usize = 0;
        while i < n
            invariant
                cframe(old(self)@, self@),
                i <= n,
                collect_numbered(coll_of(old(self)@), prefix@, i as nat) == Some(coll_of(self@)),
            decreases n - i,
        {
            let name = numbered(prefix, i);
            let r = self.add_variable(name, 1, one_word(0));
            if r.is_err() {
                proof {
                    lemma_numbered_stops(coll_of(old(self)@), prefix@, (i + 1) as nat, n as nat);
                }
                return Err(CodegenError {});
            }
            i = i + 1;
        }
        Ok(())
    }

    /// Reserves the scratch cells.
    fn collect_temps(&mut self) -> (r: Result<(), CodegenError>)
        ensures
            cframe(old(self)@, final(self)@),
            coll_matches(r, collect_temps(coll_of(old(self)@)), final(self)@),
    {
        let r = self.add_variable(String::from_str("__tmp_val"), 1, one_word(0));
        if r.is_err() {
            return Err(CodegenError {});
        }
        let r = self.collect_numbered("__tmp_", 32);
        if r.is_err() {
            return Err(CodegenError {});
        }
        let r = self.collect_numbered("__tmp_idx_", 8);
        if r.is_err() {
            return Err(CodegenError {});
        }
        self.collect_numbered("__tmp_ptr_", 8)
    }

    /// Reserves all the data of a program from address 0 on.
    fn collect_symbols(&mut self, program: &Program) -> (r: Result<(), CodegenError>)
        ensures
            cframe(old(self)@, final(self)@),
            coll_matches(r, collect_program(old(self)@, program@), final(self)@),
    {
        self.data_addr = 0;
        let r = self.collect_globals(&program.statements);
        if r.is_err() {
            return Err(CodegenError {});
        }
        let r = self.collect_functions(&program.functions);
        if r.is_err() {
            return Err(CodegenError {});
        }
        self.collect_temps()
    }

    /// The position of the first function named `main`.
    fn find_main(fs: &Vec<FunctionDecl>) -> (r: Option<usize>)
        ensures
            match r {
                Some(i) => i < fs@.len() && main_index(funcs_view(fs@)) == Some(i as nat),
                None => main_index(funcs_view(fs@)) is None,
            },
    {
        let ghost all = funcs_view(fs@);
        let mut i: usize = 0;
        assert(all.subrange(0, all.len() as int) =~= all);
        while i < fs.len()
            invariant
                i <= fs@.len(),
                all == funcs_view(fs@),
                main_index(all) == match main_index(all.subrange(i as int, all.len() as int)) {
                    Some(j) => Some((j + i) as nat),
                    None => None,
                },
            decreases fs@.len() - i,
        {
            let ghost rest = all.subrange(i as int, all.len() as int);
            assert(rest[0] == all[i as int]);
            assert(rest.drop_first() =~= all.subrange(i + 1, all.len() as int));
            if is_named(&fs[i].name, "main") {
                return Some(i);
            }
            i = i + 1;
        }
        None
    }

    /// The code of the functions: the first `main` first, then every other
    /// function in order.
    fn compile_functions(&mut self, fs: &Vec<FunctionDecl>) -> (r: Result<(), CodegenError>)
        ensures
            frame(old(self)@, final(self)@),
            gen_matches(r, gen_program(env_of(old(self)@), funcs_view(fs@), gen_of(old(self)@)), final(self)@),
    {
        let ghost all = funcs_view(fs@);
        let ghost env = env_of(old(self)@);
        match Self::find_main(fs) {
            Some(m) => {
                let r = self.compile_function(&fs[m]);
                if r.is_err() {
                    return Err(CodegenError {});
                }
            },
            None => {},
        }
        let ghost g1 = gen_of(self@);
        let mut i: usize = 0;
        assert(all.subrange(0, all.len() as int) =~= all);
        while i < fs.len()
            invariant
                frame(old(self)@, self@),
                env == env_of(old(self)@),
                i <= fs@.len(),
                all == funcs_view(fs@),
                gen_program(env, all, gen_of(old(self)@)) == gen_others(env, all, g1),
                gen_others(env, all, g1) == gen_others(env, all.subrange(i as int, all.len() as int), gen_of(self@)),
            decreases fs@.len() - i,
        {
            let ghost rest = all.subrange(i as int, all.len() as int);
            assert(rest[0] == all[i as int]);
            assert(rest.drop_first() =~= all.subrange(i + 1, all.len() as int));
            if !is_named(&fs[i].name, "main") {
                let r = self.compile_function(&fs[i]);
                if r.is_err() {
                    return Err(CodegenError {});
                }
            }
            i = i + 1;
        }
        Ok(())
    }

    /// The label entries of the code, appended to `resolved`.
    fn collect_labels(&self, resolved: &mut Vec<(String, u32)>) -> (r: Result<(), CodegenError>)
        ensures
            match label_entries(self@.code, self@.data_addr as nat) {
                Some(ents) => r is Ok && table_view(final(resolved)@) == table_view(old(resolved)@) + ents,
                None => r is Err,
            },
    {
        let ghost all = self@.code;
        let ghost base = table_view(resolved@);
        let mut addr: u32 = self.data_addr;
        let mut i: usize = 0;
        assert(all.subrange(0, all.len() as int) =~= all);
        assert(base + Seq::<(Seq<char>, u32)>::empty() =~= base);
        while i < self.code_cmds.len()
            invariant
                i <= self.code_cmds@.len(),
                all == cmds_view(self.code_cmds@),
                all.len() == self.code_cmds@.len(),
                label_entries(all, self@.data_addr as nat) == match label_entries(all.subrange(i as int, all.len() as int), addr as nat) {
                    Some(rest) => Some(table_view(resolved@).subrange(base.len() as int, table_view(resolved@).len() as int) + rest),
                    None => None,
                },
                table_view(resolved@).subrange(0, base.len() as int) == base,
                base.len() <= table_view(resolved@).len(),
            decreases self.code_cmds@.len() - i,
        {
            let ghost rest = all.subrange(i as int, all.len() as int);
            let ghost acc = table_view(resolved@).subrange(base.len() as int, table_view(resolved@).len() as int);
            assert(rest[0] == all[i as int]);
            assert(all[i as int] == self.code_cmds@[i as int]@);
            assert(rest.drop_first() =~= all.subrange(i + 1, all.len() as int));
            let size: usize = match &self.code_cmds[i] {
                Command::Label(_) => 0,
                Command::Word(vs) => vs.len(),
                Command::Instr(_, _) => 1,
            };
            if size > (u32::MAX - addr) as usize {
                return Err(CodegenError {});
            }
            let next = addr + size as u32;
            match &self.code_cmds[i] {
                Command::Label(n) => {
                    let ghost before = table_view(resolved@);
                    resolved.push((copy_string(n), addr));
                    proof {
                        assert(table_view(resolved@) =~= before.push((n@, addr)));
                        match label_entries(all.subrange(i + 1, all.len() as int), next as nat) {
                            Some(r2) => {
                                assert(acc + (seq![(n@, addr)] + r2) =~= table_view(resolved@).subrange(
                                    base.len() as int, table_view(resolved@).len() as int) + r2);
                            },
                            None => {},
                        }
                        assert(table_view(resolved@).subrange(0, base.len() as int) =~= base);
                    }
                },
                _ => {},
            }
            addr = next;
            i = i + 1;
        }
        assert(table_view(resolved@).subrange(base.len() as int, table_view(resolved@).len() as int) + Seq::<(Seq<char>, u32)>::empty()
            =~= table_view(resolved@).subrange(base.len() as int, table_view(resolved@).len() as int));
        assert(table_view(resolved@) =~= base + table_view(resolved@).subrange(base.len() as int, table_view(resolved@).len() as int));
        Ok(())
    }

    /// Emits the data section: the line and the bytes of each data command.
    fn emit_data_section(&mut self) -> (r: Result<(), CodegenError>)
        ensures
            match emit_data(old(self)@.symbols, old(self)@.data, 0) {
                Some((t, b)) => r is Ok && final(self)@ == (AsmState {
                    text: old(self)@.text + t,
                    binary: old(self)@.binary + b,
                    ..old(self)@
                }),
                None => r is Err,
            },
    {
        let ghost all = self@.data;
        let ghost t0 = self.text@;
        let ghost b0 = self.binary@;
        let mut addr: u32 = 0;
        let mut i: usize = 0;
        assert(all.subrange(0, all.len() as int) =~= all);
        assert(t0 + Seq::<char>::empty() =~= t0);
        assert(b0 + Seq::<u8>::empty() =~= b0);
        while i < self.data_cmds.len()
            invariant
                i <= self.data_cmds@.len(),
                all == cmds_view(self.data_cmds@),
                all.len() == self.data_cmds@.len(),
                self@ == (AsmState { text: self@.text, binary: self@.binary, ..old(self)@ }),
                t0 == old(self)@.text,
                b0 == old(self)@.binary,
                t0.len() <= self.text@.len(),
                b0.len() <= self.binary@.len(),
                self.text@.subrange(0, t0.len() as int) == t0,
                self.binary@.subrange(0, b0.len() as int) == b0,
                emit_data(old(self)@.symbols, all, 0) == match emit_data(old(self)@.symbols, all.subrange(i as int, all.len() as int), addr) {
                    Some((t, b)) => Some((
                        self.text@.subrange(t0.len() as int, self.text@.len() as int) + t,
                        self.binary@.subrange(b0.len() as int, self.binary@.len() as int) + b,
                    )),
                    None => None,
                },
            decreases self.data_cmds@.len() - i,
        {
            let ghost rest = all.subrange(i as int, all.len() as int);
            let ghost tacc = self.text@.subrange(t0.len() as int, self.text@.len() as int);
            let ghost bacc = self.binary@.subrange(b0.len() as int, self.binary@.len() as int);
            assert(rest[0] == all[i as int]);
            assert(all[i as int] == self.data_cmds@[i as int]@);
            assert(rest.drop_first() =~= all.subrange(i + 1, all.len() as int));
            match &self.data_cmds[i] {
                Command::Word(vs) => {
                    let l = vs.len() as u32;
                    if addr > u32::MAX - l {
                        return Err(CodegenError {});
                    }
                    let ghost tb = self.text@;
                    let ghost bb = self.binary@;
                    push_data_line(&mut self.text, &self.symbols, addr, vs);
                    push_words(&mut self.binary, vs);
                    proof {
                        let line = data_line(table_view(self.symbols@), addr, vs@);
                        match emit_data(old(self)@.symbols, all.subrange(i + 1, all.len() as int), (addr + l) as u32) {
                            Some((t2, b2)) => {
                                assert(tacc + (line + t2) =~= self.text@.subrange(t0.len() as int, self.text@.len() as int) + t2);
                                assert(bacc + (words_bytes(vs@) + b2) =~= self.binary@.subrange(b0.len() as int, self.binary@.len() as int) + b2);
                            },
                            None => {},
                        }
                        assert(self.text@.subrange(0, t0.len() as int) =~= t0);
                        assert(self.binary@.subrange(0, b0.len() as int) =~= b0);
                    }
                    addr = addr + l;
                },
                _ => {},
            }
            i = i + 1;
        }
        assert(self.text@ =~= t0 + self.text@.subrange(t0.len() as int, self.text@.len() as int));
        assert(self.binary@ =~= b0 + self.binary@.subrange(b0.len() as int, self.binary@.len() as int));
        assert(self.text@.subrange(t0.len() as int, self.text@.len() as int) + Seq::<char>::empty()
            =~= self.text@.subrange(t0.len() as int, self.text@.len() as int));
        assert(self.binary@.subrange(b0.len() as int, self.binary@.len() as int) + Seq::<u8>::empty()
            =~= self.binary@.subrange(b0.len() as int, self.binary@.len() as int));
        Ok(())
    }

    /// Emits the code section: a line per label and per instruction, and the
    /// instruction words with names resolved in `resolved`.
    fn emit_code_section(&mut self, resolved: &Vec<(String, u32)>)
        ensures
            final(self)@ == (AsmState {
                text: old(self)@.text + code_text(old(self)@.code),
                binary: old(self)@.binary + code_bytes(old(self)@.code, table_view(resolved@)),
                ..old(self)@
            }),
    {
        let ghost all = self@.code;
        let ghost tab = table_view(resolved@);
        let mut i: usize = 0;
        assert(all.subrange(0, all.len() as int) =~= all);
        while i < self.code_cmds.len()
            invariant
                i <= self.code_cmds@.len(),
                all == cmds_view(self.code_cmds@),
                all.len() == self.code_cmds@.len(),
                tab == table_view(resolved@),
                self@ == (AsmState { text: self@.text, binary: self@.binary, ..old(self)@ }),
                old(self)@.text + code_text(all) == self.text@ + code_text(all.subrange(i as int, all.len() as int)),
                old(self)@.binary + code_bytes(all, tab) == self.binary@ + code_bytes(all.subrange(i as int, all.len() as int), tab),
            decreases self.code_cmds@.len() - i,
        {
            let ghost rest = all.subrange(i as int, all.len() as int);
            let ghost tb = self.text@;
            let ghost bb = self.binary@;
            assert(rest[0] == all[i as int]);
            assert(all[i as int] == self.code_cmds@[i as int]@);
            assert(rest.drop_first() =~= all.subrange(i + 1, all.len() as int));
            match &self.code_cmds[i] {
                Command::Label(n) => {
                    push_str(&mut self.text, n.as_str());
                    push_str(&mut self.text, ":\n");
                    assert(self.text@ =~= tb + (n@ + ":\n"@));
                },
                Command::Word(vs) => {
                    push_words(&mut self.binary, vs);
                },
                Command::Instr(m, o) => {
                    emit_text_command(&mut self.text, *m, o);
                    emit_binary_command(&mut self.binary, *m, o, resolved);
                },
            }
            proof {
                let nt = all.subrange(i + 1, all.len() as int);
                assert(tb + code_text(rest) =~= self.text@ + code_text(nt));
                assert(bb + code_bytes(rest, tab) =~= self.binary@ + code_bytes(nt, tab));
            }
            i = i + 1;
        }
        assert(code_text(all.subrange(i as int, all.len() as int)) =~= Seq::<char>::empty());
        assert(code_bytes(all.subrange(i as int, all.len() as int), tab) =~= Seq::<u8>::empty());
        assert(self.text@ =~= self.text@ + Seq::<char>::empty());
        assert(self.binary@ =~= self.binary@ + Seq::<u8>::empty());
    }

    /// Resolves names and emits the text and the binary.
    fn resolve_and_emit(&mut self) -> (r: Result<(), CodegenError>)
        ensures
            match emit_program(old(self)@) {
                Some(s) => r is Ok && final(self)@ == s,
                None => r is Err,
            },
    {
        let mut resolved = copy_table(&self.symbols);
        let r = self.collect_labels(&mut resolved);
        if r.is_err() {
            return Err(CodegenError {});
        }
        push_str(&mut self.text, "\t.data\n");
        let ghost s1 = self@;
        let r = self.emit_data_section();
        if r.is_err() {
            return Err(CodegenError {});
        }
        push_str(&mut self.text, "\n\t.code\n");
        let ghost s2 = self@;
        self.emit_code_section(&resolved);
        proof {
            match emit_data(old(self)@.symbols, old(self)@.data, 0) {
                Some((dt, db)) => {
                    assert(self@.text =~= old(self)@.text + "\t.data\n"@ + dt + "\n\t.code\n"@ + code_text(old(self)@.code));
                    assert(self@.binary =~= old(self)@.binary + db + code_bytes(old(self)@.code, table_view(resolved@)));
                },
                None => {},
            }
        }
        Ok(())
    }

    /// Compiles a program where the model goes all the way: reserves its
    /// data, generates its code and emits text and binary; `Err` exactly
    /// where code generation cannot go on.
    pub fn try_compile_program(&mut self, program: &Program) -> (r: Result<(), CodegenError>)
        ensures
            match compile_model(old(self)@, program@) {
                Some(s) => r is Ok && final(self)@ == s,
                None => r is Err,
            },
    {
        let r = self.collect_symbols(program);
        if r.is_err() {
            return Err(CodegenError {});
        }
        let r = self.compile_functions(&program.functions);
        if r.is_err() {
            return Err(CodegenError {});
        }
        self.resolve_and_emit()
    }

    /// Compiles a program: reserves its data, generates its code and emits
    /// text and binary.
    pub fn compile_program(&mut self, program: &Program)
        requires
            compile_model(old(self)@, program@) is Some,
        ensures
            compile_model(old(self)@, program@) == Some(final(self)@),
    {
        let _ = self.try_compile_program(program);
    }

    /// A variable's name as code refers to it: the function's own copy if
    /// there is one, else the name itself.
    fn resolve_name(&self, name: &String, func: &String) -> (r: String)
        ensures
            r@ == resolved_name(env_of(self@), name@, func@),
    {
        let m = mangle(name.as_str(), func.as_str());
        if self.lookup_symbol(&m).is_some() {
            m
        } else {
            copy_string(name)
        }
    }

    /// The code of an expression.
    fn compile_expr(&mut self, e: &Expr, func: &String, depth: usize) -> (r: Result<(), CodegenError>)
        ensures
            frame(old(self)@, final(self)@),
            gen_matches(r, gen_expr(env_of(old(self)@), e@, func@, depth as nat, gen_of(old(self)@)), final(self)@),
        decreases e, 1nat,
    {
        match e {
            Expr::Number(n) => {
                self.emit_instr(Mnemonic::Ld, Operand::Immediate(*n));
                assert(self@.code =~= old(self)@.code + seq![ins(Mnemonic::Ld, imm(*n))]);
                Ok(())
            },
            Expr::String(_) => Err(CodegenError {}),
            Expr::Variable(name) => {
                let m = self.resolve_name(name, func);
                let ghost mv = m@;
                self.emit_instr(Mnemonic::Ld, Operand::Named(m));
                assert(self@.code =~= old(self)@.code + seq![ins(Mnemonic::Ld, named(mv))]);
                Ok(())
            },
            Expr::UnaryOp(_, _) => self.compile_unary_op(e, func, depth),
            Expr::BinaryOp(_, _, _) => self.compile_binary_op(e, func, depth),
            Expr::FunctionCall(_, _) => self.compile_function_call(e, func, depth),
            Expr::ArrayInit(elems) => {
                proof {
                    lemma_exprs_view(elems@);
                }
                if elems.len() > 0 {
                    self.compile_expr(&elems[0], func, depth)
                } else {
                    Ok(())
                }
            },
            Expr::ArrayAccess(_, _) => self.compile_array_access(e, func, depth),
            Expr::Grouping(inner) => self.compile_expr(inner, func, depth),
        }
    }

    /// The code of a unary operator: the operand one level deeper, then
    /// `NEG`, `NOT`, or for logical not a comparison with 0 that loads 1 or 0.
    fn compile_unary_op(&mut self, e: &Expr, func: &String, depth: usize) -> (r: Result<(), CodegenError>)
        requires
            e is UnaryOp,
        ensures
            frame(old(self)@, final(self)@),
            gen_matches(r, gen_expr(env_of(old(self)@), e@, func@, depth as nat, gen_of(old(self)@)), final(self)@),
        decreases e, 0nat,
    {
        match e {
            Expr::UnaryOp(op, inner) => {
                if depth == usize::MAX {
                    return Err(CodegenError {});
                }
                let r = self.compile_expr(inner, func, depth + 1);
                if r.is_err() {
                    return Err(CodegenError {});
                }
                let ghost g1 = gen_of(self@);
                match op {
                    UnaryOp::Neg => {
                        self.emit_instr(Mnemonic::Neg, Operand::NoOperand);
                        assert(self@.code =~= g1.code + seq![op0(Mnemonic::Neg)]);
                    },
                    UnaryOp::BitNot => {
                        self.emit_instr(Mnemonic::Not, Operand::NoOperand);
                        assert(self@.code =~= g1.code + seq![op0(Mnemonic::Not)]);
                    },
                    UnaryOp::Not => {
                        let tmp = numbered("__tmp_", depth);
                        self.emit_instr(Mnemonic::St, Operand::Named(copy_string(&tmp)));
                        self.emit_instr(Mnemonic::Ld, Operand::Immediate(0));
                        self.emit_instr(Mnemonic::Cmp, Operand::Named(copy_string(&tmp)));
                        if !self.labels_available() {
                            return Err(CodegenError {});
                        }
                        let t = self.new_label();
                        let l = self.new_label();
                        self.emit_instr(Mnemonic::Jzs, Operand::Named(copy_string(&t)));
                        self.emit_instr(Mnemonic::Ld, Operand::Immediate(0));
                        self.emit_instr(Mnemonic::Jmp, Operand::Named(copy_string(&l)));
                        let ghost tv = t@;
                        let ghost lv = l@;
                        self.emit(Command::Label(t));
                        self.emit_instr(Mnemonic::Ld, Operand::Immediate(1));
                        self.emit(Command::Label(l));
                        assert(self@.code =~= g1.code + seq![ins(Mnemonic::St, named(tmp@)), ins(Mnemonic::Ld, imm(0)),
                            ins(Mnemonic::Cmp, named(tmp@)), ins(Mnemonic::Jzs, named(tv)), ins(Mnemonic::Ld, imm(0)),
                            ins(Mnemonic::Jmp, named(lv)), ACmd::Label(tv), ins(Mnemonic::Ld, imm(1)), ACmd::Label(lv)]);
                    },
                }
                Ok(())
            },
            _ => Err(CodegenError {}),
        }
    }

    /// The code of a binary operator. `&&` and `||` evaluate the right operand
    /// only where the left does not decide; the others evaluate the right
    /// operand into a scratch cell, then the left, then operate on the cell.
    fn compile_binary_op(&mut self, e: &Expr, func: &String, depth: usize) -> (r: Result<(), CodegenError>)
        requires
            e is BinaryOp,
        ensures
            frame(old(self)@, final(self)@),
            gen_matches(r, gen_expr(env_of(old(self)@), e@, func@, depth as nat, gen_of(old(self)@)), final(self)@),
        decreases e, 0nat,
    {
        match e {
            Expr::BinaryOp(left, op, right) => {
                let op = *op;
                if op == BinaryOp::And || op == BinaryOp::Or {
                    let r = self.compile_expr(left, func, depth);
                    if r.is_err() {
                        return Err(CodegenError {});
                    }
                    let ghost g1 = gen_of(self@);
                    if !self.labels_available() {
                        return Err(CodegenError {});
                    }
                    let t = self.new_label();
                    let x = self.new_label();
                    let jump = if op == BinaryOp::And { Mnemonic::Jzs } else { Mnemonic::Jzc };
                    self.emit_instr(Mnemonic::Cmp, Operand::Immediate(0));
                    self.emit_instr(jump, Operand::Named(copy_string(&t)));
                    assert(self@.code =~= g1.code + seq![ins(Mnemonic::Cmp, imm(0)), ins(jump, named(t@))]);
                    let r = self.compile_expr(right, func, depth);
                    if r.is_err() {
                        return Err(CodegenError {});
                    }
                    let ghost g3 = gen_of(self@);
                    let (first, second): (i32, i32) = if op == BinaryOp::And { (1, 0) } else { (0, 1) };
                    self.emit_instr(Mnemonic::Cmp, Operand::Immediate(0));
                    self.emit_instr(jump, Operand::Named(copy_string(&t)));
                    self.emit_instr(Mnemonic::Ld, Operand::Immediate(first));
                    self.emit_instr(Mnemonic::Jmp, Operand::Named(copy_string(&x)));
                    let ghost tv = t@;
                    let ghost xv = x@;
                    self.emit(Command::Label(t));
                    self.emit_instr(Mnemonic::Ld, Operand::Immediate(second));
                    self.emit(Command::Label(x));
                    assert(self@.code =~= g3.code + seq![ins(Mnemonic::Cmp, imm(0)), ins(jump, named(tv)),
                        ins(Mnemonic::Ld, imm(first)), ins(Mnemonic::Jmp, named(xv)), ACmd::Label(tv),
                        ins(Mnemonic::Ld, imm(second)), ACmd::Label(xv)]);
                    Ok(())
                } else {
                    if depth == usize::MAX {
                        return Err(CodegenError {});
                    }
                    let tmp = numbered("__tmp_", depth);
                    let r = self.compile_expr(right, func, depth + 1);
                    if r.is_err() {
                        return Err(CodegenError {});
                    }
                    let ghost g1 = gen_of(self@);
                    self.emit_instr(Mnemonic::St, Operand::Named(copy_string(&tmp)));
                    assert(self@.code =~= g1.code + seq![ins(Mnemonic::St, named(tmp@))]);
                    let r = self.compile_expr(left, func, depth + 1);
                    if r.is_err() {
                        return Err(CodegenError {});
                    }
                    let ghost g2 = gen_of(self@);
                    if op == BinaryOp::Eq || op == BinaryOp::NotEq || op == BinaryOp::Less || op == BinaryOp::LessEq
                        || op == BinaryOp::Greater || op == BinaryOp::GreaterEq {
                        self.compile_compare_result(op, &tmp)
                    } else {
                        let m = match op {
                            BinaryOp::Add => Mnemonic::Add,
                            BinaryOp::Sub => Mnemonic::Sub,
                            BinaryOp::Mul => Mnemonic::Mul,
                            BinaryOp::Div => Mnemonic::Div,
                            BinaryOp::Rem => Mnemonic::Mod,
                            BinaryOp::BitAnd => Mnemonic::And,
                            BinaryOp::BitOr => Mnemonic::Or,
                            _ => Mnemonic::Xor,
                        };
                        self.emit_instr(m, Operand::Named(tmp));
                        assert(self@.code =~= g2.code + seq![ins(arith_mnemonic(op), named(tmp@))]);
                        Ok(())
                    }
                }
            },
            _ => Err(CodegenError {}),
        }
    }

    /// Turns the flags of `CMP tmp` into 1 or 0 for a comparison operator.
    fn compile_compare_result(&mut self, op: BinaryOp, tmp: &String) -> (r: Result<(), CodegenError>)
        ensures
            frame(old(self)@, final(self)@),
            gen_matches(r, gen_compare(op, tmp@, gen_of(old(self)@)), final(self)@),
    {
        self.emit_instr(Mnemonic::Cmp, Operand::Named(copy_string(tmp)));
        let ghost g1 = gen_of(self@);
        assert(g1.code =~= old(self)@.code + seq![ins(Mnemonic::Cmp, named(tmp@))]);
        if !self.labels_available() {
            return Err(CodegenError {});
        }
        let t = self.new_label();
        let e = self.new_label();
        let ghost tv = t@;
        let ghost ev = e@;
        match op {
            BinaryOp::Eq => {
                self.emit_instr(Mnemonic::Jzs, Operand::Named(copy_string(&t)));
            },
            BinaryOp::NotEq => {
                self.emit_instr(Mnemonic::Jzs, Operand::Named(copy_string(&t)));
            },
            BinaryOp::Less => {
                self.emit_instr(Mnemonic::Jns, Operand::Named(copy_string(&t)));
            },
            BinaryOp::LessEq => {
                self.emit_instr(Mnemonic::Jzs, Operand::Named(copy_string(&t)));
                self.emit_instr(Mnemonic::Jns, Operand::Named(copy_string(&t)));
            },
            BinaryOp::Greater => {
                self.emit_instr(Mnemonic::Jnc, Operand::Named(copy_string(&t)));
            },
            _ => {
                self.emit_instr(Mnemonic::Jns, Operand::Named(copy_string(&t)));
            },
        }
        let (on_fall, on_jump): (i32, i32) = match op {
            BinaryOp::NotEq => (1, 0),
            BinaryOp::Eq | BinaryOp::Less | BinaryOp::LessEq | BinaryOp::Greater => (0, 1),
            _ => (1, 0),
        };
        self.emit_instr(Mnemonic::Ld, Operand::Immediate(on_fall));
        self.emit_instr(Mnemonic::Jmp, Operand::Named(copy_string(&e)));
        self.emit(Command::Label(t));
        self.emit_instr(Mnemonic::Ld, Operand::Immediate(on_jump));
        self.emit(Command::Label(e));
        assert(self@.code =~= g1.code + compare_tail(op, tv, ev));
        Ok(())
    }

    /// The code of a call. `out` stores its first argument to the output
    /// port, `in` loads from the input port; any other function gets its
    /// arguments stored into its parameter cells, then `CALL` and a load of
    /// its return cell.
    fn compile_function_call(&mut self, e: &Expr, func: &String, depth: usize) -> (r: Result<(), CodegenError>)
        requires
            e is FunctionCall,
        ensures
            frame(old(self)@, final(self)@),
            gen_matches(r, gen_expr(env_of(old(self)@), e@, func@, depth as nat, gen_of(old(self)@)), final(self)@),
        decreases e, 0nat,
    {
        match e {
            Expr::FunctionCall(name, args) => {
                proof {
                    lemma_exprs_view(args@);
                }
                if is_named(name, "out") {
                    if args.len() > 0 {
                        let r = self.compile_expr(&args[0], func, depth);
                        if r.is_err() {
                            return Err(CodegenError {});
                        }
                        let ghost g1 = gen_of(self@);
                        self.emit_instr(Mnemonic::St, Operand::Addr(0x1FFFFFF));
                        assert(self@.code =~= g1.code + seq![ins(Mnemonic::St, AOperand::Addr(out_port()))]);
                    }
                    Ok(())
                } else if is_named(name, "in") {
                    self.emit_instr(Mnemonic::Ld, Operand::Addr(0x1FFFFFE));
                    assert(self@.code =~= old(self)@.code + seq![ins(Mnemonic::Ld, AOperand::Addr(in_port()))]);
                    Ok(())
                } else {
                    let pnames = self.param_names_of(name);
                    let r = self.compile_args(args, &pnames, name, func, depth);
                    if r.is_err() {
                        return Err(CodegenError {});
                    }
                    let ghost g1 = gen_of(self@);
                    self.emit_instr(Mnemonic::Call, Operand::Named(copy_string(name)));
                    self.emit_instr(Mnemonic::Ld, Operand::Named(ret_string(name.as_str())));
                    assert(self@.code =~= g1.code + seq![ins(Mnemonic::Call, named(name@)), ins(Mnemonic::Ld, named(ret_name(name@)))]);
                    Ok(())
                }
            },
            _ => Err(CodegenError {}),
        }
    }

    /// The code of call arguments: each value is stored into the callee's
    /// parameter cell of the same position.
    fn compile_args(&mut self, args: &Vec<Expr>, pnames: &Vec<String>, callee: &String, func: &String, depth: usize)
        -> (r: Result<(), CodegenError>)
        ensures
            frame(old(self)@, final(self)@),
            gen_matches(
                r,
                gen_args(env_of(old(self)@), exprs_view(args@), 0, strings_view(pnames@), callee@, func@, depth as nat, gen_of(old(self)@)),
                final(self)@,
            ),
        decreases args, 2nat,
    {
        proof {
            lemma_exprs_view(args@);
        }
        let ghost all = exprs_view(args@);
        let ghost pn = strings_view(pnames@);
        let ghost env = env_of(old(self)@);
        let mut i: usize = 0;
        assert(all.subrange(0, all.len() as int) =~= all);
        while i < args.len()
            invariant
                frame(old(self)@, self@),
                env == env_of(old(self)@),
                i <= args@.len(),
                all == exprs_view(args@),
                all.len() == args@.len(),
                pn == strings_view(pnames@),
                forall|k: int| 0 <= k < args@.len() ==> #[trigger] all[k] == args@[k]@,
                gen_args(env, all, 0, pn, callee@, func@, depth as nat, gen_of(old(self)@))
                    == gen_args(env, all.subrange(i as int, all.len() as int), i as nat, pn, callee@, func@, depth as nat, gen_of(self@)),
            decreases args@.len() - i,
        {
            let ghost rest = all.subrange(i as int, all.len() as int);
            assert(rest[0] == all[i as int]);
            let r = self.compile_expr(&args[i], func, depth);
            if r.is_err() {
                return Err(CodegenError {});
            }
            if i >= pnames.len() {
                return Err(CodegenError {});
            }
            let ghost g1 = gen_of(self@);
            let m = mangle(pnames[i].as_str(), callee.as_str());
            let ghost mv = m@;
            self.emit_instr(Mnemonic::St, Operand::Named(m));
            assert(self@.code =~= g1.code + seq![ins(Mnemonic::St, named(mv))]);
            assert(rest.subrange(1, rest.len() as int) =~= all.subrange(i + 1, all.len() as int));
            i = i + 1;
        }
        Ok(())
    }

    /// The code of an indexed load: the index one level deeper, added to the
    /// array's base address into a scratch cell, then an indirect load.
    fn compile_array_access(&mut self, e: &Expr, func: &String, depth: usize) -> (r: Result<(), CodegenError>)
        requires
            e is ArrayAccess,
        ensures
            frame(old(self)@, final(self)@),
            gen_matches(r, gen_expr(env_of(old(self)@), e@, func@, depth as nat, gen_of(old(self)@)), final(self)@),
        decreases e, 0nat,
    {
        match e {
            Expr::ArrayAccess(name, index) => {
                let m = self.resolve_name(name, func);
                let base = match self.lookup_symbol(&m) {
                    Some(b) => b,
                    None => {
                        return Err(CodegenError {});
                    },
                };
                if depth == usize::MAX {
                    return Err(CodegenError {});
                }
                let idx_tmp = numbered("__tmp_idx_", depth);
                let ptr_tmp = numbered("__tmp_ptr_", depth);
                let r = self.compile_expr(index, func, depth + 1);
                if r.is_err() {
                    return Err(CodegenError {});
                }
                let ghost g1 = gen_of(self@);
                self.emit_instr(Mnemonic::St, Operand::Named(copy_string(&idx_tmp)));
                self.emit_instr(Mnemonic::Ld, Operand::Immediate(base as i32));
                self.emit_instr(Mnemonic::Add, Operand::Named(copy_string(&idx_tmp)));
                self.emit_instr(Mnemonic::St, Operand::Named(copy_string(&ptr_tmp)));
                self.emit_instr(Mnemonic::Ldi, Operand::Named(copy_string(&ptr_tmp)));
                assert(self@.code =~= g1.code + seq![ins(Mnemonic::St, named(idx_tmp@)),
                    ins(Mnemonic::Ld, imm(base as i32)), ins(Mnemonic::Add, named(idx_tmp@)),
                    ins(Mnemonic::St, named(ptr_tmp@)), ins(Mnemonic::Ldi, named(ptr_tmp@))]);
                Ok(())
            },
            _ => Err(CodegenError {}),
        }
    }

    /// Stores the elements of an array literal into consecutive cells from
    /// `base`.
    fn compile_elems(&mut self, elems: &Vec<Expr>, base: u32, func: &String, depth: usize) -> (r: Result<(), CodegenError>)
        ensures
            frame(old(self)@, final(self)@),
            gen_matches(r, gen_elems(env_of(old(self)@), exprs_view(elems@), base, 0, func@, depth as nat, gen_of(old(self)@)), final(self)@),
    {
        proof {
            lemma_exprs_view(elems@);
        }
        let ghost all = exprs_view(elems@);
        let ghost env = env_of(old(self)@);
        let mut i: usize = 0;
        assert(all.subrange(0, all.len() as int) =~= all);
        while i < elems.len()
            invariant
                frame(old(self)@, self@),
                env == env_of(old(self)@),
                i <= elems@.len(),
                all == exprs_view(elems@),
                all.len() == elems@.len(),
                forall|k: int| 0 <= k < elems@.len() ==> #[trigger] all[k] == elems@[k]@,
                gen_elems(env, all, base, 0, func@, depth as nat, gen_of(old(self)@))
                    == gen_elems(env, all.subrange(i as int, all.len() as int), base, i as nat, func@, depth as nat, gen_of(self@)),
            decreases elems@.len() - i,
        {
            let ghost rest = all.subrange(i as int, all.len() as int);
            assert(rest[0] == all[i as int]);
            let r = self.compile_expr(&elems[i], func, depth);
            if r.is_err() {
                return Err(CodegenError {});
            }
            if i as u64 > 0xFFFF_FFFFu64 - base as u64 {
                return Err(CodegenError {});
            }
            let ghost g1 = gen_of(self@);
            let addr = base + i as u32;
            self.emit_instr(Mnemonic::St, Operand::Addr(addr));
            assert(self@.code =~= g1.code + seq![ins(Mnemonic::St, AOperand::Addr(addr))]);
            assert(rest.drop_first() =~= all.subrange(i + 1, all.len() as int));
            i = i + 1;
        }
        Ok(())
    }

    /// Stores the bytes of a string and a terminating 0 into consecutive cells
    /// from `base`.
    fn compile_string_init(&mut self, st: &String, base: u32) -> (r: Result<(), CodegenError>)
        ensures
            frame(old(self)@, final(self)@),
            gen_matches(r, gen_bytes(encode_utf8(st@).push(0), base, 0, gen_of(old(self)@)), final(self)@),
    {
        let bytes = st.as_str().as_bytes();
        let ghost all = encode_utf8(st@).push(0);
        let n = bytes.len();
        assert(bytes@ == encode_utf8(st@));
        let mut i: usize = 0;
        assert(all.subrange(0, all.len() as int) =~= all);
        while i < n
            invariant
                frame(old(self)@, self@),
                i <= n,
                n == bytes@.len(),
                bytes@ == encode_utf8(st@),
                all == encode_utf8(st@).push(0),
                gen_bytes(all, base, 0, gen_of(old(self)@))
                    == gen_bytes(all.subrange(i as int, all.len() as int), base, i as nat, gen_of(self@)),
            decreases n - i,
        {
            let ghost rest = all.subrange(i as int, all.len() as int);
            assert(rest[0] == all[i as int]);
            if i as u64 > 0xFFFF_FFFFu64 - base as u64 {
                return Err(CodegenError {});
            }
            let b = bytes[i];
            let addr = base + i as u32;
            let ghost g0 = gen_of(self@);
            self.emit_instr(Mnemonic::Ld, Operand::Immediate(b as i32));
            self.emit_instr(Mnemonic::St, Operand::Addr(addr));
            assert(self@.code =~= g0.code + seq![ins(Mnemonic::Ld, imm(b as i32)), ins(Mnemonic::St, AOperand::Addr(addr))]);
            assert(rest.drop_first() =~= all.subrange(i + 1, all.len() as int));
            i = i + 1;
        }
        let ghost rest = all.subrange(n as int, all.len() as int);
        assert(rest[0] == 0u8);
        if n as u64 > 0xFFFF_FFFFu64 - base as u64 {
            return Err(CodegenError {});
        }
        let addr = base + n as u32;
        let ghost g0 = gen_of(self@);
        self.emit_instr(Mnemonic::Ld, Operand::Immediate(0));
        self.emit_instr(Mnemonic::St, Operand::Addr(addr));
        assert(self@.code =~= g0.code + seq![ins(Mnemonic::Ld, imm(0u8 as i32)), ins(Mnemonic::St, AOperand::Addr(addr))]);
        assert(rest.drop_first() =~= Seq::<u8>::empty());
        assert(gen_bytes(rest.drop_first(), base, n as nat + 1, gen_of(self@)) == Some(gen_of(self@)));
        assert(gen_bytes(rest, base, n as nat, g0) == Some(gen_of(self@)));
        Ok(())
    }

    /// Evaluates an expression and stores it into a named cell.
    fn compile_store(&mut self, e: &Expr, target: String, func: &String, depth: usize) -> (r: Result<(), CodegenError>)
        ensures
            frame(old(self)@, final(self)@),
            gen_matches(
                r,
                match gen_expr(env_of(old(self)@), e@, func@, depth as nat, gen_of(old(self)@)) {
                    None => None,
                    Some(g1) => Some(emit(g1, seq![ins(Mnemonic::St, named(target@))])),
                },
                final(self)@,
            ),
    {
        let r = self.compile_expr(e, func, depth);
        if r.is_err() {
            return Err(CodegenError {});
        }
        let ghost g1 = gen_of(self@);
        let ghost tv = target@;
        self.emit_instr(Mnemonic::St, Operand::Named(target));
        assert(self@.code =~= g1.code + seq![ins(Mnemonic::St, named(tv))]);
        Ok(())
    }

    /// The code of a `let` in a function.
    fn compile_let_stmt(&mut self, s: &Statement, func: &String, depth: usize) -> (r: Result<(), CodegenError>)
        requires
            s is Let,
        ensures
            frame(old(self)@, final(self)@),
            gen_matches(r, gen_stmt(env_of(old(self)@), s@, func@, depth as nat, gen_of(old(self)@)), final(self)@),
    {
        match s {
            Statement::Let(name, typ, expr) => {
                let m = mangle(name.as_str(), func.as_str());
                match typ {
                    Type::Array(_, _) => match expr {
                        Expr::ArrayInit(elems) => {
                            match self.lookup_symbol(&m) {
                                Some(base) => self.compile_elems(elems, base, func, depth),
                                None => Err(CodegenError {}),
                            }
                        },
                        _ => self.compile_store(expr, m, func, depth),
                    },
                    Type::StringType => match expr {
                        Expr::String(st) => {
                            match self.lookup_symbol(&m) {
                                Some(base) => self.compile_string_init(st, base),
                                None => Err(CodegenError {}),
                            }
                        },
                        _ => self.compile_store(expr, m, func, depth),
                    },
                    Type::I32 => self.compile_store(expr, m, func, depth),
                }
            },
            _ => Err(CodegenError {}),
        }
    }

    /// The code of an assignment.
    fn compile_assign(&mut self, s: &Statement, func: &String, depth: usize) -> (r: Result<(), CodegenError>)
        requires
            s is Assign,
        ensures
            frame(old(self)@, final(self)@),
            gen_matches(r, gen_stmt(env_of(old(self)@), s@, func@, depth as nat, gen_of(old(self)@)), final(self)@),
    {
        match s {
            Statement::Assign(name, index, expr) => {
                let m = self.resolve_name(name, func);
                match index {
                    Some(idx) => {
                        let base = match self.lookup_symbol(&m) {
                            Some(b) => b,
                            None => {
                                return Err(CodegenError {});
                            },
                        };
                        let val_tmp = String::from_str("__tmp_val");
                        let r = self.compile_store(expr, copy_string(&val_tmp), func, depth);
                        if r.is_err() {
                            return Err(CodegenError {});
                        }
                        if depth == usize::MAX {
                            return Err(CodegenError {});
                        }
                        let idx_tmp = numbered("__tmp_idx_", depth);
                        let ptr_tmp = numbered("__tmp_ptr_", depth);
                        let r = self.compile_expr(idx, func, depth + 1);
                        if r.is_err() {
                            return Err(CodegenError {});
                        }
                        let ghost g2 = gen_of(self@);
                        self.emit_instr(Mnemonic::St, Operand::Named(copy_string(&idx_tmp)));
                        self.emit_instr(Mnemonic::Ld, Operand::Immediate(base as i32));
                        self.emit_instr(Mnemonic::Add, Operand::Named(copy_string(&idx_tmp)));
                        self.emit_instr(Mnemonic::St, Operand::Named(copy_string(&ptr_tmp)));
                        self.emit_instr(Mnemonic::Ld, Operand::Named(copy_string(&val_tmp)));
                        self.emit_instr(Mnemonic::Sti, Operand::Named(copy_string(&ptr_tmp)));
                        assert(self@.code =~= g2.code + seq![ins(Mnemonic::St, named(idx_tmp@)),
                            ins(Mnemonic::Ld, imm(base as i32)), ins(Mnemonic::Add, named(idx_tmp@)),
                            ins(Mnemonic::St, named(ptr_tmp@)), ins(Mnemonic::Ld, named(val_name())),
                            ins(Mnemonic::Sti, named(ptr_tmp@))]);
                        Ok(())
                    },
                    None => self.compile_store(expr, m, func, depth),
                }
            },
            _ => Err(CodegenError {}),
        }
    }

    /// The code of an `if`: the condition, a jump to the else part (or the
    /// end) when it is zero, the then part, a jump to the end.
    fn compile_if(&mut self, s: &Statement, func: &String, depth: usize) -> (r: Result<(), CodegenError>)
        requires
            s is If,
        ensures
            frame(old(self)@, final(self)@),
            gen_matches(r, gen_stmt(env_of(old(self)@), s@, func@, depth as nat, gen_of(old(self)@)), final(self)@),
        decreases s, 0nat,
    {
        match s {
            Statement::If(cond, then_block, else_block) => {
                if !self.labels_available() {
                    return Err(CodegenError {});
                }
                let el = self.new_label();
                let end = self.new_label();
                let r = self.compile_expr(cond, func, depth);
                if r.is_err() {
                    return Err(CodegenError {});
                }
                let ghost g1 = gen_of(self@);
                self.emit_instr(Mnemonic::Jzs, Operand::Named(copy_string(&el)));
                assert(self@.code =~= g1.code + seq![ins(Mnemonic::Jzs, named(el@))]);
                let r = self.compile_block(then_block, func, depth);
                if r.is_err() {
                    return Err(CodegenError {});
                }
                let ghost g2 = gen_of(self@);
                let ghost elv = el@;
                self.emit_instr(Mnemonic::Jmp, Operand::Named(copy_string(&end)));
                self.emit(Command::Label(el));
                assert(self@.code =~= g2.code + seq![ins(Mnemonic::Jmp, named(end@)), ACmd::Label(elv)]);
                match else_block {
                    Some(eb) => {
                        let r = self.compile_block(eb, func, depth);
                        if r.is_err() {
                            return Err(CodegenError {});
                        }
                    },
                    None => {},
                }
                let ghost g4 = gen_of(self@);
                let ghost endv = end@;
                self.emit(Command::Label(end));
                assert(self@.code =~= g4.code + seq![ACmd::Label(endv)]);
                Ok(())
            },
            _ => Err(CodegenError {}),
        }
    }

    /// The code of a `while`: a label, the condition, a jump to the end when
    /// it is zero, the body, a jump back.
    fn compile_while(&mut self, s: &Statement, func: &String, depth: usize) -> (r: Result<(), CodegenError>)
        requires
            s is While,
        ensures
            frame(old(self)@, final(self)@),
            gen_matches(r, gen_stmt(env_of(old(self)@), s@, func@, depth as nat, gen_of(old(self)@)), final(self)@),
        decreases s, 0nat,
    {
        match s {
            Statement::While(cond, body) => {
                if !self.labels_available() {
                    return Err(CodegenError {});
                }
                let top = self.new_label();
                let end = self.new_label();
                let ghost topv = top@;
                self.emit(Command::Label(copy_string(&top)));
                assert(self@.code =~= old(self)@.code + seq![ACmd::Label(topv)]);
                let r = self.compile_expr(cond, func, depth);
                if r.is_err() {
                    return Err(CodegenError {});
                }
                let ghost g1 = gen_of(self@);
                self.emit_instr(Mnemonic::Jzs, Operand::Named(copy_string(&end)));
                assert(self@.code =~= g1.code + seq![ins(Mnemonic::Jzs, named(end@))]);
                let r = self.compile_block(body, func, depth);
                if r.is_err() {
                    return Err(CodegenError {});
                }
                let ghost g2 = gen_of(self@);
                let ghost endv = end@;
                self.emit_instr(Mnemonic::Jmp, Operand::Named(top));
                self.emit(Command::Label(end));
                assert(self@.code =~= g2.code + seq![ins(Mnemonic::Jmp, named(topv)), ACmd::Label(endv)]);
                Ok(())
            },
            _ => Err(CodegenError {}),
        }
    }

    /// The code of a `return`: the value into the return cell, then `RET`.
    fn compile_return(&mut self, s: &Statement, func: &String, depth: usize) -> (r: Result<(), CodegenError>)
        requires
            s is Return,
        ensures
            frame(old(self)@, final(self)@),
            gen_matches(r, gen_stmt(env_of(old(self)@), s@, func@, depth as nat, gen_of(old(self)@)), final(self)@),
    {
        match s {
            Statement::Return(e) => {
                match e {
                    Some(x) => {
                        let r = self.compile_expr(x, func, depth);
                        if r.is_err() {
                            return Err(CodegenError {});
                        }
                        let ghost g1 = gen_of(self@);
                        self.emit_instr(Mnemonic::St, Operand::Named(ret_string(func.as_str())));
                        self.emit_instr(Mnemonic::Ret, Operand::NoOperand);
                        assert(self@.code =~= g1.code + seq![ins(Mnemonic::St, named(ret_name(func@))), op0(Mnemonic::Ret)]);
                    },
                    None => {
                        self.emit_instr(Mnemonic::Ret, Operand::NoOperand);
                        assert(self@.code =~= old(self)@.code + seq![op0(Mnemonic::Ret)]);
                    },
                }
                Ok(())
            },
            _ => Err(CodegenError {}),
        }
    }

    /// The code of a statement.
    fn compile_statement(&mut self, s: &Statement, func: &String, depth: usize) -> (r: Result<(), CodegenError>)
        ensures
            frame(old(self)@, final(self)@),
            gen_matches(r, gen_stmt(env_of(old(self)@), s@, func@, depth as nat, gen_of(old(self)@)), final(self)@),
        decreases s, 1nat,
    {
        match s {
            Statement::Let(_, _, _) => self.compile_let_stmt(s, func, depth),
            Statement::Assign(_, _, _) => self.compile_assign(s, func, depth),
            Statement::If(_, _, _) => self.compile_if(s, func, depth),
            Statement::While(_, _) => self.compile_while(s, func, depth),
            Statement::Return(_) => self.compile_return(s, func, depth),
            Statement::Expr(e) => self.compile_expr(e, func, depth),
        }
    }

    /// The code of a block's statements, in order.
    fn compile_block(&mut self, block: &Block, func: &String, depth: usize) -> (r: Result<(), CodegenError>)
        ensures
            frame(old(self)@, final(self)@),
            gen_matches(r, gen_stmts(env_of(old(self)@), block@, func@, depth as nat, gen_of(old(self)@)), final(self)@),
        decreases block, 3nat,
    {
        self.compile_stmts(&block.statements, func, depth)
    }

    /// The code of statements, in order.
    fn compile_stmts(&mut self, stmts: &Vec<Statement>, func: &String, depth: usize) -> (r: Result<(), CodegenError>)
        ensures
            frame(old(self)@, final(self)@),
            gen_matches(r, gen_stmts(env_of(old(self)@), stmts_view(stmts@), func@, depth as nat, gen_of(old(self)@)), final(self)@),
        decreases stmts, 2nat,
    {
        proof {
            lemma_stmts_view(stmts@);
        }
        let ghost all = stmts_view(stmts@);
        let ghost env = env_of(old(self)@);
        let mut i: usize = 0;
        assert(all.subrange(0, all.len() as int) =~= all);
        while i < stmts.len()
            invariant
                frame(old(self)@, self@),
                env == env_of(old(self)@),
                i <= stmts@.len(),
                all == stmts_view(stmts@),
                all.len() == stmts@.len(),
                forall|k: int| 0 <= k < stmts@.len() ==> #[trigger] all[k] == stmts@[k]@,
                gen_stmts(env, all, func@, depth as nat, gen_of(old(self)@))
                    == gen_stmts(env, all.subrange(i as int, all.len() as int), func@, depth as nat, gen_of(self@)),
            decreases stmts@.len() - i,
        {
            let ghost rest = all.subrange(i as int, all.len() as int);
            assert(rest[0] == all[i as int]);
            let r = self.compile_statement(&stmts[i], func, depth);
            if r.is_err() {
                return Err(CodegenError {});
            }
            assert(rest.subrange(1, rest.len() as int) =~= all.subrange(i + 1, all.len() as int));
            i = i + 1;
        }
        Ok(())
    }

    /// The code of a function: its label, its body, and `HALT` for `main` or
    /// `RET` for any other.
    fn compile_function(&mut self, f: &FunctionDecl) -> (r: Result<(), CodegenError>)
        ensures
            frame(old(self)@, final(self)@),
            gen_matches(r, gen_function(env_of(old(self)@), f@, gen_of(old(self)@)), final(self)@),
    {
        let ghost fname = f.name@;
        self.emit(Command::Label(copy_string(&f.name)));
        assert(self@.code =~= old(self)@.code + seq![ACmd::Label(fname)]);
        let r = self.compile_block(&f.body, &f.name, 0);
        if r.is_err() {
            return Err(CodegenError {});
        }
        let ghost g1 = gen_of(self@);
        if is_named(&f.name, "main") {
            self.emit_instr(Mnemonic::Halt, Operand::NoOperand);
            assert(self@.code =~= g1.code + seq![op0(Mnemonic::Halt)]);
        } else {
            self.emit_instr(Mnemonic::Ret, Operand::NoOperand);
            assert(self@.code =~= g1.code + seq![op0(Mnemonic::Ret)]);
        }
        Ok(())
    }
}

} // verus!
