//! The data path: registers, flags and the ALU, driven one micro-instruction at a time.
use vstd::prelude::*;
use crate::isa::{opcode_of, mode_of, operand_of, sign_extend_25, immediate};
use crate::signals::{alu_field, cond_field, has, PC_TO_AR, PC_INCR, DR_TO_CR, OPERAND_TO_AR, DR_TO_AR, DR_TO_AC, ALU_TO_AC, AC_TO_DR, PC_TO_DR, SP_TO_DR, SP_TO_AR, SP_INCR, SP_DECR, DR_TO_PC, ALU_TO_PC, DR_TO_DATA_BUS, IMM_TO_DATA_BUS, ZERO_TO_DATA_BUS, UPDATE_FLAGS};

verus! {

pub struct Processor {
    pub pc: u32,
    pub sp: u32,
    pub ac: i32,
    pub cr: u32,
    pub ar: u32,
    pub dr: i32,
    pub data_bus: i32,
    pub z: bool,
    pub n: bool,
    pub alu_op: u8,
    pub run: bool,
    pub tick_count: u64,
}

/// Division as `i32::wrapping_div` gives it: rounding toward zero, and `i32::MIN`
/// for `i32::MIN / -1`.
pub open spec fn wrap_div(a: i32, b: i32) -> i32 {
    match a.checked_div(b) {
        Some(q) => q,
        None => i32::MIN,
    }
}

/// Remainder as `i32::wrapping_rem` gives it: the sign of the dividend, and 0
/// for `i32::MIN % -1`.
pub open spec fn wrap_rem(a: i32, b: i32) -> i32 {
    match a.checked_rem(b) {
        Some(r) => r,
        None => 0,
    }
}

/// Negation as `i32::wrapping_neg` gives it.
pub open spec fn wrap_neg(a: i32) -> i32 {
    if a == i32::MIN {
        i32::MIN
    } else {
        (-a) as i32
    }
}

/// What the ALU computes from operation `op`, accumulator `a` and data bus `b`.
pub open spec fn alu_value(op: u8, a: i32, b: i32) -> i32 {
    if op == 0 {
        b
    } else if op == 1 {
        vstd::wrapping::i32_specs::wrapping_add(a, b)
    } else if op == 2 {
        vstd::wrapping::i32_specs::wrapping_sub(a, b)
    } else if op == 3 {
        vstd::wrapping::i32_specs::wrapping_mul(a, b)
    } else if op == 4 {
        wrap_div(a, b)
    } else if op == 5 {
        wrap_rem(a, b)
    } else if op == 6 {
        a & b
    } else if op == 7 {
        a | b
    } else if op == 8 {
        a ^ b
    } else if op == 9 {
        wrap_neg(a)
    } else if op == 10 {
        !a
    } else {
        0
    }
}


/// What each ALU operation computes, on accumulator `a` and data bus `b`:
/// 0 passes the bus through; 1, 2 and 3 add, subtract and multiply modulo 2^32
/// (the result is the one value of `i32` congruent to the exact one); 6, 7 and
/// 8 are bitwise and, or and exclusive or; 9 negates (leaving `i32::MIN`
/// as it is); 10 complements every bit, which is `-1 - a`; any other number
/// gives 0.
pub proof fn lemma_alu_operations(a: i32, b: i32)
    ensures
        alu_value(0, a, b) == b,
        (alu_value(1, a, b) as int - (a as int + b as int)) % 0x1_0000_0000 == 0,
        (alu_value(2, a, b) as int - (a as int - b as int)) % 0x1_0000_0000 == 0,
        (alu_value(3, a, b) as int - (a as int * b as int)) % 0x1_0000_0000 == 0,
        alu_value(6, a, b) == a & b,
        alu_value(7, a, b) == a | b,
        alu_value(8, a, b) == a ^ b,
        alu_value(9, a, b) as int == if a == i32::MIN { a as int } else { -(a as int) },
        alu_value(10, a, b) == !a,
        alu_value(10, a, b) as int == -1 - a as int,
        forall|op: u8| op > 10 ==> alu_value(op, a, b) == 0,
{
    let m: int = 0x1_0000_0000;
    let x = a as int * b as int;
    let c = vstd::wrapping::i32_specs::wrapping_mul(a, b);
    vstd::arithmetic::div_mod::lemma_fundamental_div_mod(x, m);
    vstd::arithmetic::div_mod::lemma_mod_bound(x, m);
    assert((c as int - x) % m == 0) by {
        let r = x % m;
        let q = x / m;
        if r > i32::MAX as int {
            assert(c as int - x == -m * (q + 1)) by (nonlinear_arith)
                requires c as int == r - m, x == m * q + r;
            vstd::arithmetic::div_mod::lemma_mod_multiples_basic(-(q + 1), m);
            assert(-(q + 1) * m == -m * (q + 1)) by (nonlinear_arith);
        } else {
            assert(c as int - x == -m * q) by (nonlinear_arith)
                requires c as int == r, x == m * q + r;
            vstd::arithmetic::div_mod::lemma_mod_multiples_basic(-q, m);
            assert(-q * m == -m * q) by (nonlinear_arith);
        }
    }
    let s = vstd::wrapping::i32_specs::wrapping_add(a, b);
    let d = vstd::wrapping::i32_specs::wrapping_sub(a, b);
    assert((s as int - (a as int + b as int)) % m == 0);
    assert((d as int - (a as int - b as int)) % m == 0);
    let n = !a;
    assert(n == -1i32 - a) by (bit_vector)
        requires n == !a;
}

/// The quotient of `a` by `b` rounded toward zero.
pub open spec fn trunc_quotient(a: int, b: int) -> int {
    let q = (if a < 0 { -a } else { a }) / (if b < 0 { -b } else { b });
    if (a < 0) == (b < 0) { q } else { -q }
}

/// Division and remainder truncate toward zero: for a divisor `b` other than
/// 0 (and other than -1 under `i32::MIN`, which overflows), operation 4 gives
/// the quotient `q` and operation 5 the remainder `r` with `q * b + r == a`,
/// `|r| < |b|`, and `r` either 0 or of the sign of `a`.
pub proof fn lemma_alu_division(a: i32, b: i32)
    requires
        b != 0,
        !(a == i32::MIN && b == -1),
    ensures
        alu_value(4, a, b) as int == trunc_quotient(a as int, b as int),
        alu_value(5, a, b) as int == a as int - b as int * trunc_quotient(a as int, b as int),
        alu_value(4, a, b) as int * b as int + alu_value(5, a, b) as int == a as int,
        (if alu_value(5, a, b) < 0 { -(alu_value(5, a, b) as int) } else { alu_value(5, a, b) as int })
            < (if b < 0 { -(b as int) } else { b as int }),
        alu_value(5, a, b) == 0 || (alu_value(5, a, b) < 0) == (a < 0),
{
    let x = a as int;
    let d = b as int;
    let aa: int = if x < 0 { -x } else { x };
    let bb: int = if d < 0 { -d } else { d };
    let q0 = aa / bb;
    let r0 = aa % bb;
    vstd::arithmetic::div_mod::lemma_fundamental_div_mod(aa, bb);
    vstd::arithmetic::div_mod::lemma_mod_pos_bound(aa, bb);
    vstd::arithmetic::div_mod::lemma_div_pos_is_pos(aa, bb);
    assert(q0 <= aa) by (nonlinear_arith)
        requires aa == bb * q0 + r0, bb >= 1, q0 >= 0, r0 >= 0;
    assert(q0 < 0x8000_0000 || bb == 1) by (nonlinear_arith)
        requires aa == bb * q0 + r0, bb >= 1, q0 >= 0, r0 >= 0, aa <= 0x8000_0000;
    assert(x * -1 == -x);
    assert(d * -1 == -d);
    let q: int = if x == 0 { 0 } else if (x < 0) == (d < 0) { q0 } else { -q0 };
    let r: int = if x == 0 { 0 } else if x < 0 { -r0 } else { r0 };
    assert(x == 0 ==> q0 == 0 && r0 == 0);
    assert(alu_value(4, a, b) as int == q);
    assert(alu_value(5, a, b) as int == r);
    assert(x == 0 ==> q0 == 0);
    assert(q == trunc_quotient(x, d));
    assert(q * d + r == x) by (nonlinear_arith)
        requires
            aa == bb * q0 + r0,
            aa == (if x < 0 { -x } else { x }),
            bb == (if d < 0 { -d } else { d }),
            q == (if x == 0 { 0 } else if (x < 0) == (d < 0) { q0 } else { -q0 }),
            r == (if x == 0 { 0 } else if x < 0 { -r0 } else { r0 }),
    ;
}

/// The ALU operation divides by zero (division and remainder panic then).
pub open spec fn alu_faults(op: u8, b: i32) -> bool {
    (op == 4 || op == 5) && b == 0
}

/// Whether a jump condition holds for the flags.
pub open spec fn cond_holds(c: u32, z: bool, n: bool) -> bool {
    if c == 0 {
        true
    } else if c == 1 {
        z
    } else if c == 2 {
        !z
    } else if c == 3 {
        n
    } else if c == 4 {
        !n
    } else {
        false
    }
}

/// The data bus after the bus signals of `micro`.
pub open spec fn bus_after(p: Processor, micro: u32) -> i32 {
    let b1 = if has(micro, DR_TO_DATA_BUS) { p.dr } else { p.data_bus };
    let b2 = if has(micro, IMM_TO_DATA_BUS) { sign_extend_25(operand_of(p.cr)) } else { b1 };
    if has(micro, ZERO_TO_DATA_BUS) { 0 } else { b2 }
}

/// The routing signals of `micro`: data bus, ALU operation, address register
/// and data register, each read from the registers as they were before.
pub open spec fn route_step(p: Processor, micro: u32) -> Processor {
    let ar1 = if has(micro, PC_TO_AR) { p.pc } else { p.ar };
    let ar2 = if has(micro, OPERAND_TO_AR) { operand_of(p.cr) } else { ar1 };
    let ar3 = if has(micro, DR_TO_AR) { p.dr as u32 } else { ar2 };
    let ar = if has(micro, SP_TO_AR) { p.sp } else { ar3 };
    let dr1 = if has(micro, AC_TO_DR) { p.ac } else { p.dr };
    let dr2 = if has(micro, PC_TO_DR) { p.pc as i32 } else { dr1 };
    let dr = if has(micro, SP_TO_DR) { p.sp as i32 } else { dr2 };
    Processor {
        data_bus: bus_after(p, micro),
        alu_op: alu_field(micro) as u8,
        ar: ar,
        dr: dr,
        ..p
    }
}

/// The ALU signals of `micro`: the ALU result into the accumulator, then, when
/// the condition holds, the ALU result (on the new accumulator) into the PC.
pub open spec fn alu_step(p: Processor, micro: u32) -> Processor {
    let ac = if has(micro, ALU_TO_AC) { alu_value(p.alu_op, p.ac, p.data_bus) } else { p.ac };
    let jump = has(micro, ALU_TO_PC) && cond_holds(cond_field(micro), p.z, p.n);
    let pc = if jump { alu_value(p.alu_op, ac, p.data_bus) as u32 } else { p.pc };
    Processor { ac: ac, pc: pc, ..p }
}

/// The transfer signals of `micro`: data register into accumulator, command
/// register and PC, then the PC and stack pointer steps.
pub open spec fn transfer_step(p: Processor, micro: u32) -> Processor {
    let ac = if has(micro, DR_TO_AC) { p.dr } else { p.ac };
    let cr = if has(micro, DR_TO_CR) { p.dr as u32 } else { p.cr };
    let pc1 = if has(micro, DR_TO_PC) { p.dr as u32 } else { p.pc };
    let pc = if has(micro, PC_INCR) { vstd::wrapping::u32_specs::wrapping_add(pc1, 1) } else { pc1 };
    let sp1 = if has(micro, SP_INCR) { vstd::wrapping::u32_specs::wrapping_add(p.sp, 1) } else { p.sp };
    let sp = if has(micro, SP_DECR) { vstd::wrapping::u32_specs::wrapping_sub(sp1, 1) } else { sp1 };
    Processor { ac: ac, cr: cr, pc: pc, sp: sp, ..p }
}

/// The flag signal of `micro`: zero and negative flags from the ALU output.
/// The output is computed again from the accumulator as the earlier signals of
/// the same step left it, so after a step that also moves the ALU result into
/// the accumulator the flags describe the operation applied once more to the
/// new accumulator (an `ADD` of 3 to 2 leaves 5 in the accumulator and sets
/// the flags from 5 + 3).
pub open spec fn flags_step(p: Processor, micro: u32) -> Processor {
    if has(micro, UPDATE_FLAGS) {
        let out = alu_value(p.alu_op, p.ac, p.data_bus);
        Processor { z: out == 0, n: out < 0, ..p }
    } else {
        p
    }
}

/// The processor after one micro-instruction. The signals act in this order:
/// data bus, ALU operation, address register, data register, ALU to accumulator,
/// conditional ALU to PC, data register to accumulator, to CR, to PC, PC
/// increment, stack pointer, flags.
pub open spec fn micro_step(p: Processor, micro: u32) -> Processor {
    flags_step(transfer_step(alu_step(route_step(p, micro), micro), micro), micro)
}

/// Executing `micro` would make the ALU divide by zero.
pub open spec fn micro_faults(p: Processor, micro: u32) -> bool {
    let r = route_step(p, micro);
    &&& alu_faults(r.alu_op, r.data_bus)
    &&& (has(micro, ALU_TO_AC) || (has(micro, ALU_TO_PC) && cond_holds(cond_field(micro), p.z, p.n))
        || has(micro, UPDATE_FLAGS))
}

/// The processor as `Processor::new` makes it.
pub open spec fn initial_processor() -> Processor {
    Processor {
        pc: 0,
        sp: 0,
        ac: 0,
        cr: 0,
        ar: 0,
        dr: 0,
        data_bus: 0,
        z: false,
        n: false,
        alu_op: 0,
        run: true,
        tick_count: 0,
    }
}

impl Default for Processor {
    fn default() -> (p: Self)
        ensures
            p == initial_processor(),
    {
        Self::new()
    }
}

impl Processor {
    /// A processor with all registers and flags cleared, running.
    pub fn new() -> (p: Self)
        ensures
            p == initial_processor(),
    {
        Processor {
            pc: 0,
            sp: 0,
            ac: 0,
            cr: 0,
            ar: 0,
            dr: 0,
            data_bus: 0,
            z: false,
            n: false,
            alu_op: 0,
            run: true,
            tick_count: 0,
        }
    }

    /// The opcode field of the command register.
    pub fn opcode(&self) -> (r: usize)
        ensures
            r == opcode_of(self.cr),
            r < 32,
    {
        let cr = self.cr;
        let v = (cr >> 27u32) & 0x1Fu32;
        assert(v < 32) by (bit_vector)
            requires v == (cr >> 27u32) & 0x1Fu32;
        v as usize
    }

    /// The mode field of the command register.
    pub fn mode(&self) -> (r: usize)
        ensures
            r == mode_of(self.cr),
            r < 4,
    {
        let cr = self.cr;
        let v = (cr >> 25u32) & 0x3u32;
        assert(v < 4) by (bit_vector)
            requires v == (cr >> 25u32) & 0x3u32;
        v as usize
    }

    /// The ALU output for the current operation, accumulator and data bus.
    pub fn alu_out(&self) -> (r: i32)
        requires
            !alu_faults(self.alu_op, self.data_bus),
        ensures
            r == alu_value(self.alu_op, self.ac, self.data_bus),
    {
        let a = self.ac;
        let b = self.data_bus;
        match self.alu_op {
            0 => b,
            1 => a.wrapping_add(b),
            2 => a.wrapping_sub(b),
            3 => a.wrapping_mul(b),
            4 => match a.checked_div(b) {
                Some(q) => q,
                None => i32::MIN,
            },
            5 => match a.checked_rem(b) {
                Some(r) => r,
                None => 0,
            },
            6 => a & b,
            7 => a | b,
            8 => a ^ b,
            9 => if a == i32::MIN {
                i32::MIN
            } else {
                -a
            },
            10 => !a,
            _ => 0,
        }
    }

    /// Whether carrying out `micro` would make the ALU divide by zero.
    pub fn would_fault(&self, micro: u32) -> (b: bool)
        ensures
            b == micro_faults(*self, micro),
    {
        let mut r = Processor {
            pc: self.pc,
            sp: self.sp,
            ac: self.ac,
            cr: self.cr,
            ar: self.ar,
            dr: self.dr,
            data_bus: self.data_bus,
            z: self.z,
            n: self.n,
            alu_op: self.alu_op,
            run: self.run,
            tick_count: self.tick_count,
        };
        r.route(micro);
        let divides = (r.alu_op == 4 || r.alu_op == 5) && r.data_bus == 0;
        let c = (micro >> 22u32) & 0x7u32;
        let cond_ok = match c {
            0 => true,
            1 => self.z,
            2 => !self.z,
            3 => self.n,
            4 => !self.n,
            _ => false,
        };
        let used = micro & ALU_TO_AC != 0 || (micro & ALU_TO_PC != 0 && cond_ok) || micro & UPDATE_FLAGS != 0;
        divides && used
    }

    /// Carries out one micro-instruction on the registers and flags.
    pub fn execute_microcommand(&mut self, micro: u32)
        requires
            !micro_faults(*old(self), micro),
        ensures
            *final(self) == micro_step(*old(self), micro),
    {
        self.route(micro);
        self.alu_stage(micro);
        self.transfer(micro);
        if micro & UPDATE_FLAGS != 0 {
            let out = self.alu_out();
            self.z = out == 0;
            self.n = out < 0;
        }
    }

    fn route(&mut self, micro: u32)
        ensures
            *final(self) == route_step(*old(self), micro),
    {
        if micro & DR_TO_DATA_BUS != 0 {
            self.data_bus = self.dr;
        }
        if micro & IMM_TO_DATA_BUS != 0 {
            self.data_bus = immediate(self.cr);
        }
        if micro & ZERO_TO_DATA_BUS != 0 {
            self.data_bus = 0;
        }

        self.alu_op = ((micro >> 25u32) & 0xFu32) as u8;

        if micro & PC_TO_AR != 0 {
            self.ar = self.pc;
        }
        if micro & OPERAND_TO_AR != 0 {
            self.ar = self.cr & 0x1FFFFFFu32;
        }
        if micro & DR_TO_AR != 0 {
            self.ar = self.dr as u32;
        }
        if micro & SP_TO_AR != 0 {
            self.ar = self.sp;
        }

        if micro & AC_TO_DR != 0 {
            self.dr = self.ac;
        }
        if micro & PC_TO_DR != 0 {
            self.dr = self.pc as i32;
        }
        if micro & SP_TO_DR != 0 {
            self.dr = self.sp as i32;
        }
    }

    fn alu_stage(&mut self, micro: u32)
        requires
            !(alu_faults(old(self).alu_op, old(self).data_bus) && (has(micro, ALU_TO_AC) || (has(
                micro,
                ALU_TO_PC,
            ) && cond_holds(cond_field(micro), old(self).z, old(self).n)))),
        ensures
            *final(self) == alu_step(*old(self), micro),
    {
        if micro & ALU_TO_AC != 0 {
            self.ac = self.alu_out();
        }
        if micro & ALU_TO_PC != 0 {
            let c = (micro >> 22u32) & 0x7u32;
            let ok = match c {
                0 => true,
                1 => self.z,
                2 => !self.z,
                3 => self.n,
                4 => !self.n,
                _ => false,
            };
            if ok {
                self.pc = self.alu_out() as u32;
            }
        }
    }

    fn transfer(&mut self, micro: u32)
        ensures
            *final(self) == transfer_step(*old(self), micro),
    {
        if micro & DR_TO_AC != 0 {
            self.ac = self.dr;
        }
        if micro & DR_TO_CR != 0 {
            self.cr = self.dr as u32;
        }
        if micro & DR_TO_PC != 0 {
            self.pc = self.dr as u32;
        }
        if micro & PC_INCR != 0 {
            self.pc = self.pc.wrapping_add(1);
        }
        if micro & SP_INCR != 0 {
            self.sp = self.sp.wrapping_add(1);
        }
        if micro & SP_DECR != 0 {
            self.sp = self.sp.wrapping_sub(1);
        }
    }
}

} // verus!
