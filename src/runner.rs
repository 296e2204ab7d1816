//! The execution engine: instruction pointer, operand stack and memory,
//! stepped one opcode at a time.
//!
//! Floating-point arithmetic is the host's part. When an instruction needs
//! it, the engine pops the operands, hands their binary64 patterns out in
//! `Signal::Float` / `Exit::Float`, and the host pushes
//! `Value::Float(result)` before running on. `PRINT` hands its value out the
//! same way, so the engine never writes to a console itself.

use crate::codec::{decode_i32, decode_u32, decode_u64, read_i32, read_u32, read_u64};
use crate::float_bits::{
    compare_f64, compare_spec, float_of_int, float_of_int_spec, is_nan, is_zero, is_zero_bits,
    lemma_float_of_int_exact, negate_bits, negate_spec, represents,
};
use crate::op;
use vstd::prelude::*;

verus! {

/// A value on the stack or in memory. Floats are held as their IEEE 754
/// binary64 bit patterns; `Char` exists for output only and no instruction
/// produces it.
#[derive(Clone, Copy, Debug, PartialEq, Eq, Structural)]
pub enum Value {
    Int(i32),
    Float(u64),
    Char(u8),
}

/// The fatal conditions that abort a run.
#[derive(Clone, Copy, Debug, PartialEq, Eq, Structural)]
pub enum Fault {
    StackUnderflow,
    UnknownOpcode(u8),
    DivisionByZero,
    TypeMismatch,
    TruncatedOperand,
}

/// The five binary arithmetic operations.
#[derive(Clone, Copy, Debug, PartialEq, Eq, Structural)]
pub enum ArithOp {
    Add,
    Sub,
    Mul,
    Div,
    Mod,
}

/// What one instruction hands back.
#[derive(Clone, Copy, Debug, PartialEq, Eq, Structural)]
pub enum Signal {
    /// Nothing for the host to do.
    Continue,
    /// `LOAD` of an address outside memory: the machine stopped gracefully.
    BadLoad(u32),
    /// `PRINT` popped this value for the host to emit.
    Print(Value),
    /// The host is to compute `a op b` on binary64 patterns and push
    /// `Value::Float` of the result.
    Float(ArithOp, u64, u64),
    /// A fatal condition; the machine stopped and the instruction had no effect.
    Fault(Fault),
}

/// Why a run ended.
#[derive(Clone, Copy, Debug, PartialEq, Eq, Structural)]
pub enum Exit {
    /// The running flag is clear or the instruction pointer is past the code.
    Stopped,
    /// The instruction budget of `run` was used up.
    OutOfFuel,
    BadLoad(u32),
    Print(Value),
    Float(ArithOp, u64, u64),
    Fault(Fault),
}

/// A virtual machine over one instruction stream.
pub struct VirtualMachine {
    pub code: Vec<u8>,
    pub ip: usize,
    pub stack: Vec<Value>,
    pub memory: Vec<Value>,
    pub running: bool,
}

/// The state of a machine, as contracts see it.
pub struct Machine {
    pub code: Seq<u8>,
    pub ip: nat,
    pub stack: Seq<Value>,
    pub memory: Seq<Value>,
    pub running: bool,
}

impl View for VirtualMachine {
    type V = Machine;

    open spec fn view(&self) -> Machine {
        Machine {
            code: self.code@,
            ip: self.ip as nat,
            stack: self.stack@,
            memory: self.memory@,
            running: self.running,
        }
    }
}

// ---------------------------------------------------------------------------
// The semantics
// ---------------------------------------------------------------------------

/// The `n` operand bytes at the instruction pointer, if the code holds them.
pub open spec fn operand(s: Machine, n: nat) -> Option<Seq<u8>> {
    if s.ip + n <= s.code.len() {
        Some(s.code.subrange(s.ip as int, (s.ip + n) as int))
    } else {
        None
    }
}

/// The machine with another instruction pointer.
pub open spec fn with_ip(s: Machine, ip: nat) -> Machine {
    Machine { ip, ..s }
}

/// The machine with another stack.
pub open spec fn with_stack(s: Machine, stack: Seq<Value>) -> Machine {
    Machine { stack, ..s }
}

/// A fatal condition: the machine stops and nothing else changes.
pub open spec fn fault(s: Machine, f: Fault) -> (Machine, Signal) {
    (Machine { running: false, ..s }, Signal::Fault(f))
}

/// The stack without its `k` top entries.
pub open spec fn below(st: Seq<Value>, k: nat) -> Seq<Value> {
    st.subrange(0, st.len() - k)
}

/// The `k`-th entry from the top (0 is the top).
pub open spec fn from_top(st: Seq<Value>, k: nat) -> Value {
    st[st.len() - 1 - k]
}

/// An integer or a float.
pub open spec fn is_numeric(v: Value) -> bool {
    v is Int || v is Float
}

/// Zero of either kind: the additive identity that no division accepts.
pub open spec fn is_zero_value(v: Value) -> bool {
    match v {
        Value::Int(i) => i == 0,
        Value::Float(b) => is_zero(b),
        Value::Char(_) => false,
    }
}

/// A numeric value as a binary64 pattern (integers convert exactly).
pub open spec fn float_of(v: Value) -> u64 {
    match v {
        Value::Int(i) => float_of_int_spec(i),
        Value::Float(b) => b,
        Value::Char(c) => 0,
    }
}

/// Two's complement wrap-around into 32 bits.
pub open spec fn wrap_i32(x: int) -> i32 {
    #[verifier::truncate]
    (x as i32)
}

/// The absolute value.
pub open spec fn abs_int(x: int) -> nat {
    if x < 0 {
        (-x) as nat
    } else {
        x as nat
    }
}

/// Division rounding toward zero.
pub open spec fn trunc_div(a: int, b: int) -> int {
    let q = (abs_int(a) / abs_int(b)) as int;
    if (a < 0) != (b < 0) {
        -q
    } else {
        q
    }
}

/// The remainder that goes with `trunc_div`; it has the sign of `a`.
pub open spec fn trunc_rem(a: int, b: int) -> int {
    a - b * trunc_div(a, b)
}

/// Integer arithmetic, wrapping on overflow.
pub open spec fn int_arith(op: ArithOp, a: i32, b: i32) -> i32 {
    match op {
        ArithOp::Add => wrap_i32(a + b),
        ArithOp::Sub => wrap_i32(a - b),
        ArithOp::Mul => wrap_i32(a * b),
        ArithOp::Div => wrap_i32(trunc_div(a as int, b as int)),
        ArithOp::Mod => wrap_i32(trunc_rem(a as int, b as int)),
    }
}

/// Sign extension of a byte.
pub open spec fn sign_extend(b: u8) -> i32 {
    if b < 128 {
        b as i32
    } else {
        (b - 256) as i32
    }
}

/// Whether a conditional jump with opcode `op` is taken on comparison result `c`.
pub open spec fn jump_taken(op: u8, c: i32) -> bool {
    if op == op::JL {
        c == -1
    } else if op == op::JLE {
        c == -1 || c == 0
    } else if op == op::JG {
        c == 1
    } else if op == op::JGE {
        c == 1 || c == 0
    } else if op == op::JE {
        c == 0
    } else {
        c != 0
    }
}

/// Three-way comparison of two numeric values: -1, 0, 1, or -2 for an
/// unordered pair.
pub open spec fn compare_values(a: Value, b: Value) -> i32 {
    match (a, b) {
        (Value::Int(x), Value::Int(y)) => if x < y {
            -1i32
        } else if x > y {
            1i32
        } else {
            0i32
        },
        _ => compare_spec(float_of(a), float_of(b)),
    }
}

/// Memory after writing `v` at `a`, grown with `Int(0)` cells if needed.
pub open spec fn store_at(m: Seq<Value>, a: nat, v: Value) -> Seq<Value> {
    if a < m.len() {
        m.update(a as int, v)
    } else {
        (m + Seq::new((a - m.len()) as nat, |i: int| Value::Int(0))).push(v)
    }
}

/// Pushes the value decoded from the `n` operand bytes.
pub open spec fn push_operand(s: Machine, n: nat, v: spec_fn(Seq<u8>) -> Value) -> (
    Machine,
    Signal,
) {
    match operand(s, n) {
        None => fault(s, Fault::TruncatedOperand),
        Some(b) => (
            Machine { ip: s.ip + n, stack: s.stack.push(v(b)), ..s },
            Signal::Continue,
        ),
    }
}

/// The binary arithmetic instructions: two integers stay integers; with a
/// float on either side the host is asked for the float result.
pub open spec fn arith(s: Machine, op: ArithOp) -> (Machine, Signal) {
    let st = s.stack;
    if st.len() < 2 {
        fault(s, Fault::StackUnderflow)
    } else {
        let a = from_top(st, 1);
        let b = from_top(st, 0);
        if !is_numeric(a) || !is_numeric(b) {
            fault(s, Fault::TypeMismatch)
        } else if (op == ArithOp::Div || op == ArithOp::Mod) && is_zero_value(b) {
            fault(s, Fault::DivisionByZero)
        } else {
            match (a, b) {
                (Value::Int(x), Value::Int(y)) => (
                    with_stack(s, below(st, 2).push(Value::Int(int_arith(op, x, y)))),
                    Signal::Continue,
                ),
                _ => (with_stack(s, below(st, 2)), Signal::Float(op, float_of(a), float_of(b))),
            }
        }
    }
}

/// A conditional jump: reads the address, pops the comparison result and
/// jumps if the opcode's predicate holds of it.
pub open spec fn cond_jump(s: Machine, op: u8) -> (Machine, Signal) {
    match operand(s, 4) {
        None => fault(s, Fault::TruncatedOperand),
        Some(b) => if s.stack.len() < 1 {
            fault(s, Fault::StackUnderflow)
        } else {
            match from_top(s.stack, 0) {
                Value::Int(c) => (
                    Machine {
                        ip: if jump_taken(op, c) {
                            decode_u32(b) as nat
                        } else {
                            s.ip + 4
                        },
                        stack: below(s.stack, 1),
                        ..s
                    },
                    Signal::Continue,
                ),
                _ => fault(s, Fault::TypeMismatch),
            }
        },
    }
}

/// The effect of opcode `op` on a machine whose instruction pointer has
/// just moved past the opcode byte.
pub open spec fn exec_op(op: u8, s: Machine) -> (Machine, Signal) {
    let st = s.stack;
    if op == op::NOP {
        (s, Signal::Continue)
    } else if op == op::HALT {
        (Machine { running: false, ..s }, Signal::Continue)
    } else if op == op::IPUSH {
        push_operand(s, 4, |b: Seq<u8>| Value::Int(decode_i32(b)))
    } else if op == op::BIPUSH {
        push_operand(s, 1, |b: Seq<u8>| Value::Int(sign_extend(b[0])))
    } else if op == op::FPUSH {
        push_operand(s, 8, |b: Seq<u8>| Value::Float(decode_u64(b)))
    } else if op == op::POP {
        if st.len() < 1 {
            fault(s, Fault::StackUnderflow)
        } else {
            (with_stack(s, below(st, 1)), Signal::Continue)
        }
    } else if op == op::SWP {
        if st.len() < 2 {
            fault(s, Fault::StackUnderflow)
        } else {
            (
                with_stack(s, below(st, 2).push(from_top(st, 0)).push(from_top(st, 1))),
                Signal::Continue,
            )
        }
    } else if op == op::DUP {
        if st.len() < 1 {
            fault(s, Fault::StackUnderflow)
        } else {
            (with_stack(s, st.push(from_top(st, 0))), Signal::Continue)
        }
    } else if op == op::STORE {
        match operand(s, 4) {
            None => fault(s, Fault::TruncatedOperand),
            Some(b) => if st.len() < 1 {
                fault(s, Fault::StackUnderflow)
            } else {
                (
                    Machine {
                        ip: s.ip + 4,
                        stack: below(st, 1),
                        memory: store_at(s.memory, decode_u32(b) as nat, from_top(st, 0)),
                        ..s
                    },
                    Signal::Continue,
                )
            },
        }
    } else if op == op::LOAD {
        match operand(s, 4) {
            None => fault(s, Fault::TruncatedOperand),
            Some(b) => {
                let a = decode_u32(b);
                if a < s.memory.len() {
                    (
                        Machine { ip: s.ip + 4, stack: st.push(s.memory[a as int]), ..s },
                        Signal::Continue,
                    )
                } else {
                    (Machine { ip: s.ip + 4, running: false, ..s }, Signal::BadLoad(a))
                }
            },
        }
    } else if op == op::NEG {
        if st.len() < 1 {
            fault(s, Fault::StackUnderflow)
        } else {
            match from_top(st, 0) {
                Value::Int(x) => (
                    with_stack(s, below(st, 1).push(Value::Int(wrap_i32(-x)))),
                    Signal::Continue,
                ),
                Value::Float(x) => (
                    with_stack(s, below(st, 1).push(Value::Float(negate_spec(x)))),
                    Signal::Continue,
                ),
                Value::Char(_) => fault(s, Fault::TypeMismatch),
            }
        }
    } else if op == op::ADD {
        arith(s, ArithOp::Add)
    } else if op == op::SUB {
        arith(s, ArithOp::Sub)
    } else if op == op::MUL {
        arith(s, ArithOp::Mul)
    } else if op == op::DIV {
        arith(s, ArithOp::Div)
    } else if op == op::MOD {
        arith(s, ArithOp::Mod)
    } else if op == op::CMP {
        if st.len() < 2 {
            fault(s, Fault::StackUnderflow)
        } else if !is_numeric(from_top(st, 1)) || !is_numeric(from_top(st, 0)) {
            fault(s, Fault::TypeMismatch)
        } else {
            (
                with_stack(
                    s,
                    below(st, 2).push(Value::Int(compare_values(from_top(st, 1), from_top(st, 0)))),
                ),
                Signal::Continue,
            )
        }
    } else if op::JL <= op && op <= op::JNE {
        cond_jump(s, op)
    } else if op == op::JMP {
        match operand(s, 4) {
            None => fault(s, Fault::TruncatedOperand),
            Some(b) => (with_ip(s, decode_u32(b) as nat), Signal::Continue),
        }
    } else if op == op::PRINT {
        if st.len() < 1 {
            fault(s, Fault::StackUnderflow)
        } else {
            (with_stack(s, below(st, 1)), Signal::Print(from_top(st, 0)))
        }
    } else {
        fault(s, Fault::UnknownOpcode(op))
    }
}

/// One fetch-decode-execute step at a machine that may run.
pub open spec fn step_spec(s: Machine) -> (Machine, Signal) {
    exec_op(s.code[s.ip as int], with_ip(s, s.ip + 1))
}

/// Whether the fetch loop goes on.
pub open spec fn may_run(s: Machine) -> bool {
    s.running && s.ip < s.code.len()
}

/// At most `fuel` steps, until the machine stops or hands something out.
pub open spec fn run_spec(s: Machine, fuel: nat) -> (Machine, Exit)
    decreases fuel,
{
    if !may_run(s) {
        (s, Exit::Stopped)
    } else if fuel == 0 {
        (s, Exit::OutOfFuel)
    } else {
        let (t, sig) = step_spec(s);
        match sig {
            Signal::Continue => run_spec(t, (fuel - 1) as nat),
            Signal::BadLoad(a) => (t, Exit::BadLoad(a)),
            Signal::Print(v) => (t, Exit::Print(v)),
            Signal::Float(o, a, b) => (t, Exit::Float(o, a, b)),
            Signal::Fault(f) => (t, Exit::Fault(f)),
        }
    }
}

// ---------------------------------------------------------------------------
// Laws of the engine
// ---------------------------------------------------------------------------

/// Pushing a value and popping it gives the value back and leaves the stack
/// as it was.
pub proof fn lemma_push_then_pop(st: Seq<Value>, a: Value)
    ensures
        from_top(st.push(a), 0) == a,
        below(st.push(a), 1) == st,
{
    assert(below(st.push(a), 1) =~= st);
}

/// `DUP` followed by `POP` restores the stack as it was before `DUP`.
pub proof fn lemma_dup_then_pop(s: Machine)
    requires
        may_run(s),
        s.ip + 1 < s.code.len(),
        s.code[s.ip as int] == op::DUP,
        s.code[s.ip + 1int] == op::POP,
        s.stack.len() >= 1,
    ensures
        ({
            let (t, sig) = step_spec(s);
            let (u, sig2) = step_spec(t);
            &&& sig == Signal::Continue
            &&& sig2 == Signal::Continue
            &&& u.stack == s.stack
            &&& u.memory == s.memory
            &&& u.running
            &&& u.ip == s.ip + 2
        }),
{
    let (t, sig) = step_spec(s);
    assert(below(t.stack, 1) =~= s.stack);
}

/// `SWP` applied twice restores the original order of the stack.
pub proof fn lemma_swap_twice(s: Machine)
    requires
        may_run(s),
        s.ip + 1 < s.code.len(),
        s.code[s.ip as int] == op::SWP,
        s.code[s.ip + 1int] == op::SWP,
        s.stack.len() >= 2,
    ensures
        ({
            let (t, sig) = step_spec(s);
            let (u, sig2) = step_spec(t);
            &&& sig == Signal::Continue
            &&& sig2 == Signal::Continue
            &&& u.stack == s.stack
            &&& u.memory == s.memory
            &&& u.running
            &&& u.ip == s.ip + 2
        }),
{
    let (t, sig) = step_spec(s);
    let st = s.stack;
    assert(below(t.stack, 2) =~= below(st, 2));
    let (u, sig2) = step_spec(t);
    assert(u.stack =~= st);
}

/// Numeric promotion. Two integers give an integer: the wrapped result,
/// which for `ADD`, `SUB` and `MUL` is the exact one whenever it fits in 32
/// bits. With a float on either side both operands go to the host as
/// floats, an integer operand converted exactly.
pub proof fn lemma_arithmetic_promotion(s: Machine, op: ArithOp)
    requires
        s.stack.len() >= 2,
        is_numeric(from_top(s.stack, 1)),
        is_numeric(from_top(s.stack, 0)),
        !((op == ArithOp::Div || op == ArithOp::Mod) && is_zero_value(from_top(s.stack, 0))),
    ensures
        ({
            let a = from_top(s.stack, 1);
            let b = from_top(s.stack, 0);
            let (t, sig) = arith(s, op);
            &&& t.ip == s.ip && t.memory == s.memory && t.running == s.running
            &&& (a, b) matches (Value::Int(x), Value::Int(y)) ==> {
                &&& sig == Signal::Continue
                &&& t.stack == below(s.stack, 2).push(Value::Int(int_arith(op, x, y)))
                &&& (op == ArithOp::Add && i32::MIN <= x + y <= i32::MAX) ==> int_arith(op, x, y)
                    == x + y
                &&& (op == ArithOp::Sub && i32::MIN <= x - y <= i32::MAX) ==> int_arith(op, x, y)
                    == x - y
                &&& (op == ArithOp::Mul && i32::MIN <= x * y <= i32::MAX) ==> int_arith(op, x, y)
                    == x * y
            }
            &&& !(a is Int && b is Int) ==> {
                &&& sig == Signal::Float(op, float_of(a), float_of(b))
                &&& t.stack == below(s.stack, 2)
                &&& a matches Value::Int(x) ==> represents(float_of(a), x as int)
                &&& b matches Value::Int(y) ==> represents(float_of(b), y as int)
                &&& a matches Value::Float(x) ==> float_of(a) == x
                &&& b matches Value::Float(y) ==> float_of(b) == y
            }
        }),
{
    let a = from_top(s.stack, 1);
    let b = from_top(s.stack, 0);
    if let Value::Int(x) = a {
        lemma_float_of_int_exact(x);
    }
    if let Value::Int(y) = b {
        lemma_float_of_int_exact(y);
    }
    if let (Value::Int(x), Value::Int(y)) = (a, b) {
        let sum = x + y;
        let diff = x - y;
        let prod = x * y;
        if i32::MIN <= sum <= i32::MAX {
            assert(wrap_i32(sum) == sum);
        }
        if i32::MIN <= diff <= i32::MAX {
            assert(wrap_i32(diff) == diff);
        }
        if i32::MIN <= prod <= i32::MAX {
            assert(wrap_i32(prod) == prod);
        }
    }
}

/// On two values of the same kind, `CMP` makes exactly one of the
/// predicates of `JL`, `JE` and `JG` hold, unless a NaN is involved: then
/// none of `JL`, `JLE`, `JG`, `JGE`, `JE` holds and `JNE` does.
pub proof fn lemma_compare_consistency(a: Value, b: Value)
    requires
        (a is Int && b is Int) || (a is Float && b is Float),
    ensures
        ({
            let c = compare_values(a, b);
            let lt = jump_taken(op::JL, c);
            let eq = jump_taken(op::JE, c);
            let gt = jump_taken(op::JG, c);
            if (a matches Value::Float(x) && is_nan(x)) || (b matches Value::Float(y) && is_nan(y)) {
                &&& !lt && !eq && !gt
                &&& !jump_taken(op::JLE, c) && !jump_taken(op::JGE, c)
                &&& jump_taken(op::JNE, c)
            } else {
                &&& (lt || eq || gt)
                &&& !(lt && eq) && !(lt && gt) && !(eq && gt)
                &&& jump_taken(op::JLE, c) == (lt || eq)
                &&& jump_taken(op::JGE, c) == (gt || eq)
                &&& jump_taken(op::JNE, c) == !eq
            }
        }),
{
}

/// Division and modulo by zero, integer or float of either sign, always stop
/// the machine with `DivisionByZero`: no result is pushed and the host is
/// never asked for one.
pub proof fn lemma_division_by_zero_is_fatal(s: Machine, code: u8)
    requires
        code == op::DIV || code == op::MOD,
        s.stack.len() >= 2,
        is_numeric(from_top(s.stack, 1)),
        is_zero_value(from_top(s.stack, 0)),
    ensures
        exec_op(code, s) == fault(s, Fault::DivisionByZero),
        !exec_op(code, s).0.running,
{
}

// ---------------------------------------------------------------------------
// The engine
// ---------------------------------------------------------------------------

/// The binary64 pattern of a numeric value.
fn float_value(v: Value) -> (r: u64)
    ensures
        r == float_of(v),
{
    match v {
        Value::Int(i) => float_of_int(i),
        Value::Float(b) => b,
        Value::Char(_) => 0,
    }
}

/// Division of two 32-bit magnitudes rounding toward zero.
fn div_toward_zero(x: i64, y: i64) -> (q: i64)
    requires
        -0x8000_0000 <= x <= 0x8000_0000,
        -0x8000_0000 <= y <= 0x8000_0000,
        y != 0,
    ensures
        q == trunc_div(x as int, y as int),
        -0x8000_0000 <= q <= 0x8000_0000,
{
    let ux: u64 = if x < 0 {
        (-x) as u64
    } else {
        x as u64
    };
    let uy: u64 = if y < 0 {
        (-y) as u64
    } else {
        y as u64
    };
    let uq = ux / uy;
    assert(uq <= ux) by (nonlinear_arith)
        requires
            uy >= 1,
            uq == ux / uy,
    ;
    if (x < 0) != (y < 0) {
        -(uq as i64)
    } else {
        uq as i64
    }
}

/// Integer arithmetic, wrapping on overflow.
fn int_op(op: ArithOp, a: i32, b: i32) -> (r: i32)
    requires
        op == ArithOp::Div || op == ArithOp::Mod ==> b != 0,
    ensures
        r == int_arith(op, a, b),
{
    let x = a as i64;
    let y = b as i64;
    match op {
        ArithOp::Add => #[verifier::truncate]
        ((x + y) as i32),
        ArithOp::Sub => #[verifier::truncate]
        ((x - y) as i32),
        ArithOp::Mul => {
            assert(-0x4000_0000_0000_0000 <= x * y <= 0x4000_0000_0000_0000) by (nonlinear_arith)
                requires
                    -0x8000_0000 <= x <= 0x8000_0000,
                    -0x8000_0000 <= y <= 0x8000_0000,
            ;
            #[verifier::truncate]
            ((x * y) as i32)
        },
        ArithOp::Div => {
            let q = div_toward_zero(x, y);
            #[verifier::truncate]
            (q as i32)
        },
        ArithOp::Mod => {
            let q = div_toward_zero(x, y);
            assert(-0x4000_0000_0000_0000 <= y * q <= 0x4000_0000_0000_0000) by (nonlinear_arith)
                requires
                    -0x8000_0000 <= q <= 0x8000_0000,
                    -0x8000_0000 <= y <= 0x8000_0000,
            ;
            #[verifier::truncate]
            ((x - y * q) as i32)
        },
    }
}

/// Writes `v` at `a`, first growing memory with `Int(0)` cells up to `a`.
fn store_value(memory: &mut Vec<Value>, a: usize, v: Value)
    ensures
        final(memory)@ == store_at(old(memory)@, a as nat, v),
{
    if a < memory.len() {
        memory[a] = v;
    } else {
        let ghost m0 = memory@;
        while memory.len() < a
            invariant
                m0 == old(memory)@,
                m0.len() <= memory.len() <= a,
                memory@ == m0 + Seq::new((memory.len() - m0.len()) as nat, |i: int| Value::Int(0)),
            decreases a - memory.len(),
        {
            memory.push(Value::Int(0));
            assert(memory@ =~= m0 + Seq::new(
                (memory.len() - m0.len()) as nat,
                |i: int| Value::Int(0),
            ));
        }
        memory.push(v);
    }
    assert(memory@ =~= store_at(old(memory)@, a as nat, v));
}

/// Whether a conditional jump is taken on comparison result `c`.
fn taken(op: u8, c: i32) -> (r: bool)
    ensures
        r == jump_taken(op, c),
{
    if op == op::JL {
        c == -1
    } else if op == op::JLE {
        c == -1 || c == 0
    } else if op == op::JG {
        c == 1
    } else if op == op::JGE {
        c == 1 || c == 0
    } else if op == op::JE {
        c == 0
    } else {
        c != 0
    }
}

impl VirtualMachine {
    /// A machine at the start of `code`: empty stack and memory, running.
    pub fn new(code: Vec<u8>) -> (r: Self)
        ensures
            r@ == (Machine {
                code: code@,
                ip: 0,
                stack: Seq::empty(),
                memory: Seq::empty(),
                running: true,
            }),
    {
        VirtualMachine { code, ip: 0, stack: Vec::new(), memory: Vec::new(), running: true }
    }

    /// Reads the byte at the instruction pointer and moves past it.
    pub fn fetch(&mut self) -> (r: u8)
        requires
            old(self).ip < old(self).code.len(),
        ensures
            r == old(self)@.code[old(self).ip as int],
            final(self)@ == with_ip(old(self)@, (old(self).ip + 1) as nat),
    {
        let b = self.code[self.ip];
        self.ip = self.ip + 1;
        b
    }

    /// Puts a value on top of the stack.
    pub fn push(&mut self, value: Value)
        ensures
            final(self)@ == with_stack(old(self)@, old(self)@.stack.push(value)),
    {
        self.stack.push(value);
    }

    /// Removes and returns the top of the stack.
    pub fn pop(&mut self) -> (r: Value)
        requires
            old(self).stack.len() > 0,
        ensures
            r == from_top(old(self)@.stack, 0),
            final(self)@ == with_stack(old(self)@, below(old(self)@.stack, 1)),
    {
        let v = self.stack.pop().unwrap();
        assert(self.stack@ =~= below(old(self)@.stack, 1));
        v
    }

    /// Whether the code holds `n` operand bytes at the instruction pointer.
    fn has_operand(&self, n: usize) -> (r: bool)
        ensures
            r == (operand(self@, n as nat) is Some),
            r ==> self.ip + n <= self.code.len(),
    {
        self.ip <= self.code.len() && self.code.len() - self.ip >= n
    }

    /// Stops the machine on a fatal condition.
    fn stop(&mut self, f: Fault) -> (r: Signal)
        ensures
            (final(self)@, r) == fault(old(self)@, f),
    {
        self.running = false;
        Signal::Fault(f)
    }

    /// `IPUSH`: pushes the signed 32-bit operand.
    pub fn handle_ipush(&mut self) -> (r: Signal)
        ensures
            (final(self)@, r) == exec_op(op::IPUSH, old(self)@),
    {
        if !self.has_operand(4) {
            return self.stop(Fault::TruncatedOperand);
        }
        let v = read_i32(self.code.as_slice(), self.ip);
        self.ip = self.ip + 4;
        self.stack.push(Value::Int(v));
        Signal::Continue
    }

    /// `FPUSH`: pushes the 64-bit float operand.
    pub fn handle_fpush(&mut self) -> (r: Signal)
        ensures
            (final(self)@, r) == exec_op(op::FPUSH, old(self)@),
    {
        if !self.has_operand(8) {
            return self.stop(Fault::TruncatedOperand);
        }
        let v = read_u64(self.code.as_slice(), self.ip);
        self.ip = self.ip + 8;
        self.stack.push(Value::Float(v));
        Signal::Continue
    }

    /// `BIPUSH`: pushes the one-byte operand, sign-extended.
    pub fn handle_bipush(&mut self) -> (r: Signal)
        ensures
            (final(self)@, r) == exec_op(op::BIPUSH, old(self)@),
    {
        if !self.has_operand(1) {
            return self.stop(Fault::TruncatedOperand);
        }
        let b = self.code[self.ip];
        let v: i32 = if b < 128 {
            b as i32
        } else {
            b as i32 - 256
        };
        self.ip = self.ip + 1;
        self.stack.push(Value::Int(v));
        Signal::Continue
    }

    /// `POP`: discards the top of the stack.
    pub fn handle_pop(&mut self) -> (r: Signal)
        ensures
            (final(self)@, r) == exec_op(op::POP, old(self)@),
    {
        if self.stack.len() < 1 {
            return self.stop(Fault::StackUnderflow);
        }
        self.pop();
        Signal::Continue
    }

    /// `SWP`: swaps the two top entries.
    pub fn handle_swp(&mut self) -> (r: Signal)
        ensures
            (final(self)@, r) == exec_op(op::SWP, old(self)@),
    {
        if self.stack.len() < 2 {
            return self.stop(Fault::StackUnderflow);
        }
        let a = self.pop();
        let b = self.pop();
        self.push(a);
        self.push(b);
        assert(self.stack@ =~= below(old(self)@.stack, 2).push(a).push(b));
        Signal::Continue
    }

    /// `DUP`: pushes a copy of the top entry.
    pub fn handle_dup(&mut self) -> (r: Signal)
        ensures
            (final(self)@, r) == exec_op(op::DUP, old(self)@),
    {
        if self.stack.len() < 1 {
            return self.stop(Fault::StackUnderflow);
        }
        let a = self.stack[self.stack.len() - 1];
        self.push(a);
        Signal::Continue
    }

    /// `NEG`: negates the top entry, keeping its kind.
    pub fn handle_neg(&mut self) -> (r: Signal)
        ensures
            (final(self)@, r) == exec_op(op::NEG, old(self)@),
    {
        if self.stack.len() < 1 {
            return self.stop(Fault::StackUnderflow);
        }
        let result = match self.stack[self.stack.len() - 1] {
            Value::Int(x) => Value::Int(
                #[verifier::truncate]
                ((-(x as i64)) as i32),
            ),
            Value::Float(x) => Value::Float(negate_bits(x)),
            Value::Char(_) => {
                return self.stop(Fault::TypeMismatch);
            },
        };
        self.pop();
        self.push(result);
        Signal::Continue
    }

    /// The binary arithmetic instructions.
    fn binary_op(&mut self, op: ArithOp) -> (r: Signal)
        ensures
            (final(self)@, r) == arith(old(self)@, op),
    {
        let n = self.stack.len();
        if n < 2 {
            return self.stop(Fault::StackUnderflow);
        }
        let a = self.stack[n - 2];
        let b = self.stack[n - 1];
        let numeric = match (a, b) {
            (Value::Char(_), _) => false,
            (_, Value::Char(_)) => false,
            _ => true,
        };
        if !numeric {
            return self.stop(Fault::TypeMismatch);
        }
        let zero = match b {
            Value::Int(y) => y == 0,
            Value::Float(y) => is_zero_bits(y),
            Value::Char(_) => false,
        };
        if (op == ArithOp::Div || op == ArithOp::Mod) && zero {
            return self.stop(Fault::DivisionByZero);
        }
        self.pop();
        self.pop();
        assert(self.stack@ =~= below(old(self)@.stack, 2));
        match (a, b) {
            (Value::Int(x), Value::Int(y)) => {
                let v = int_op(op, x, y);
                self.push(Value::Int(v));
                Signal::Continue
            },
            _ => Signal::Float(op, float_value(a), float_value(b)),
        }
    }

    /// `ADD`: the sum of the two top entries.
    pub fn handle_add(&mut self) -> (r: Signal)
        ensures
            (final(self)@, r) == exec_op(op::ADD, old(self)@),
    {
        self.binary_op(ArithOp::Add)
    }

    /// `SUB`: the entry below the top minus the top.
    pub fn handle_sub(&mut self) -> (r: Signal)
        ensures
            (final(self)@, r) == exec_op(op::SUB, old(self)@),
    {
        self.binary_op(ArithOp::Sub)
    }

    /// `MUL`: the product of the two top entries.
    pub fn handle_mul(&mut self) -> (r: Signal)
        ensures
            (final(self)@, r) == exec_op(op::MUL, old(self)@),
    {
        self.binary_op(ArithOp::Mul)
    }

    /// `DIV`: the entry below the top divided by the top.
    pub fn handle_div(&mut self) -> (r: Signal)
        ensures
            (final(self)@, r) == exec_op(op::DIV, old(self)@),
    {
        self.binary_op(ArithOp::Div)
    }

    /// `MOD`: the remainder of the entry below the top by the top.
    pub fn handle_mod(&mut self) -> (r: Signal)
        ensures
            (final(self)@, r) == exec_op(op::MOD, old(self)@),
    {
        self.binary_op(ArithOp::Mod)
    }

    /// `CMP`: pushes -1, 0 or 1 as the entry below the top is less than, equal
    /// to or greater than the top; -2 for an unordered float pair.
    pub fn handle_cmp(&mut self) -> (r: Signal)
        ensures
            (final(self)@, r) == exec_op(op::CMP, old(self)@),
    {
        let n = self.stack.len();
        if n < 2 {
            return self.stop(Fault::StackUnderflow);
        }
        let a = self.stack[n - 2];
        let b = self.stack[n - 1];
        let c: i32 = match (a, b) {
            (Value::Char(_), _) => {
                return self.stop(Fault::TypeMismatch);
            },
            (_, Value::Char(_)) => {
                return self.stop(Fault::TypeMismatch);
            },
            (Value::Int(x), Value::Int(y)) => if x < y {
                -1
            } else if x > y {
                1
            } else {
                0
            },
            _ => compare_f64(float_value(a), float_value(b)),
        };
        self.pop();
        self.pop();
        self.push(Value::Int(c));
        assert(self.stack@ =~= below(old(self)@.stack, 2).push(Value::Int(c)));
        Signal::Continue
    }

    /// The conditional jumps.
    fn jump_if(&mut self, op: u8) -> (r: Signal)
        requires
            op::JL <= op <= op::JNE,
        ensures
            (final(self)@, r) == cond_jump(old(self)@, op),
    {
        if !self.has_operand(4) {
            return self.stop(Fault::TruncatedOperand);
        }
        let address = read_u32(self.code.as_slice(), self.ip);
        if self.stack.len() < 1 {
            return self.stop(Fault::StackUnderflow);
        }
        match self.stack[self.stack.len() - 1] {
            Value::Int(c) => {
                self.pop();
                if taken(op, c) {
                    self.ip = address as usize;
                } else {
                    self.ip = self.ip + 4;
                }
                Signal::Continue
            },
            _ => self.stop(Fault::TypeMismatch),
        }
    }

    /// `JL`: jumps if the comparison result is -1.
    pub fn handle_jl(&mut self) -> (r: Signal)
        ensures
            (final(self)@, r) == exec_op(op::JL, old(self)@),
    {
        self.jump_if(op::JL)
    }

    /// `JLE`: jumps if the comparison result is -1 or 0.
    pub fn handle_jle(&mut self) -> (r: Signal)
        ensures
            (final(self)@, r) == exec_op(op::JLE, old(self)@),
    {
        self.jump_if(op::JLE)
    }

    /// `JG`: jumps if the comparison result is 1.
    pub fn handle_jg(&mut self) -> (r: Signal)
        ensures
            (final(self)@, r) == exec_op(op::JG, old(self)@),
    {
        self.jump_if(op::JG)
    }

    /// `JGE`: jumps if the comparison result is 1 or 0.
    pub fn handle_jge(&mut self) -> (r: Signal)
        ensures
            (final(self)@, r) == exec_op(op::JGE, old(self)@),
    {
        self.jump_if(op::JGE)
    }

    /// `JE`: jumps if the comparison result is 0.
    pub fn handle_je(&mut self) -> (r: Signal)
        ensures
            (final(self)@, r) == exec_op(op::JE, old(self)@),
    {
        self.jump_if(op::JE)
    }

    /// `JNE`: jumps unless the comparison result is 0.
    pub fn handle_jne(&mut self) -> (r: Signal)
        ensures
            (final(self)@, r) == exec_op(op::JNE, old(self)@),
    {
        self.jump_if(op::JNE)
    }

    /// `JMP`: jumps to the operand address; the stack is untouched.
    pub fn handle_jmp(&mut self) -> (r: Signal)
        ensures
            (final(self)@, r) == exec_op(op::JMP, old(self)@),
    {
        if !self.has_operand(4) {
            return self.stop(Fault::TruncatedOperand);
        }
        let address = read_u32(self.code.as_slice(), self.ip);
        self.ip = address as usize;
        Signal::Continue
    }

    /// `STORE`: pops a value into memory at the operand address.
    pub fn handle_store(&mut self) -> (r: Signal)
        ensures
            (final(self)@, r) == exec_op(op::STORE, old(self)@),
    {
        if !self.has_operand(4) {
            return self.stop(Fault::TruncatedOperand);
        }
        let address = read_u32(self.code.as_slice(), self.ip) as usize;
        if self.stack.len() < 1 {
            return self.stop(Fault::StackUnderflow);
        }
        let v = self.pop();
        self.ip = self.ip + 4;
        store_value(&mut self.memory, address, v);
        Signal::Continue
    }

    /// `LOAD`: pushes the memory cell at the operand address, or stops the
    /// machine gracefully when there is none.
    pub fn handle_load(&mut self) -> (r: Signal)
        ensures
            (final(self)@, r) == exec_op(op::LOAD, old(self)@),
    {
        if !self.has_operand(4) {
            return self.stop(Fault::TruncatedOperand);
        }
        let address = read_u32(self.code.as_slice(), self.ip);
        self.ip = self.ip + 4;
        if (address as usize) < self.memory.len() {
            let v = self.memory[address as usize];
            self.stack.push(v);
            Signal::Continue
        } else {
            self.running = false;
            Signal::BadLoad(address)
        }
    }

    /// `PRINT`: pops a value and hands it to the host.
    pub fn handle_print(&mut self) -> (r: Signal)
        ensures
            (final(self)@, r) == exec_op(op::PRINT, old(self)@),
    {
        if self.stack.len() < 1 {
            return self.stop(Fault::StackUnderflow);
        }
        let v = self.pop();
        Signal::Print(v)
    }

    /// Fetches one opcode and executes it.
    pub fn step(&mut self) -> (r: Signal)
        requires
            old(self).ip < old(self).code.len(),
        ensures
            (final(self)@, r) == step_spec(old(self)@),
    {
        let code = self.fetch();
        if code == op::NOP {
            Signal::Continue
        } else if code == op::HALT {
            self.running = false;
            Signal::Continue
        } else if code == op::IPUSH {
            self.handle_ipush()
        } else if code == op::BIPUSH {
            self.handle_bipush()
        } else if code == op::FPUSH {
            self.handle_fpush()
        } else if code == op::POP {
            self.handle_pop()
        } else if code == op::SWP {
            self.handle_swp()
        } else if code == op::DUP {
            self.handle_dup()
        } else if code == op::STORE {
            self.handle_store()
        } else if code == op::LOAD {
            self.handle_load()
        } else if code == op::NEG {
            self.handle_neg()
        } else if code == op::ADD {
            self.handle_add()
        } else if code == op::SUB {
            self.handle_sub()
        } else if code == op::MUL {
            self.handle_mul()
        } else if code == op::DIV {
            self.handle_div()
        } else if code == op::MOD {
            self.handle_mod()
        } else if code == op::CMP {
            self.handle_cmp()
        } else if code == op::JL {
            self.handle_jl()
        } else if code == op::JLE {
            self.handle_jle()
        } else if code == op::JG {
            self.handle_jg()
        } else if code == op::JGE {
            self.handle_jge()
        } else if code == op::JE {
            self.handle_je()
        } else if code == op::JNE {
            self.handle_jne()
        } else if code == op::JMP {
            self.handle_jmp()
        } else if code == op::PRINT {
            self.handle_print()
        } else {
            self.stop(Fault::UnknownOpcode(code))
        }
    }

    /// Runs at most `fuel` instructions, until the machine stops, faults or
    /// hands something to the host.
    pub fn run(&mut self, fuel: u64) -> (r: Exit)
        ensures
            (final(self)@, r) == run_spec(old(self)@, fuel as nat),
    {
        let mut left = fuel;
        loop
            invariant
                run_spec(self@, left as nat) == run_spec(old(self)@, fuel as nat),
            decreases left,
        {
            if !self.running || self.ip >= self.code.len() {
                return Exit::Stopped;
            }
            if left == 0 {
                return Exit::OutOfFuel;
            }
            match self.step() {
                Signal::Continue => {},
                Signal::BadLoad(a) => {
                    return Exit::BadLoad(a);
                },
                Signal::Print(v) => {
                    return Exit::Print(v);
                },
                Signal::Float(o, a, b) => {
                    return Exit::Float(o, a, b);
                },
                Signal::Fault(f) => {
                    return Exit::Fault(f);
                },
            }
            left = left - 1;
        }
    }

    /// Runs until the machine stops, faults or hands something to the host
    /// (at most 2^64 - 1 instructions).
    pub fn execute(&mut self) -> (r: Exit)
        ensures
            (final(self)@, r) == run_spec(old(self)@, u64::MAX as nat),
    {
        self.run(u64::MAX)
    }
}

} // verus!
