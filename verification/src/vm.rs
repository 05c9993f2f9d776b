//! The machine that runs a program of instruction lines.
//!
//! The machine holds a register file, a flat memory of bytes, a table that
//! binds names to addresses, the program with its counter, and the log of
//! what was printed. `step` runs one instruction.
//!
//! The machine does no arithmetic on real numbers. Where an instruction
//! needs a real number read from text, or two real numbers combined, `step`
//! changes nothing and says what it `Awaits`; the caller computes it and
//! hands it to `resume`, which runs the instruction with it.
//!
//! A fatal condition is a `Fault`. It ends the run: `run` reports it, with
//! the machine as the last step before it left it. `step` and `resume` are
//! not to be called where the next step is a fault; `fault` tells
//! beforehand, so that a caller can abort.

use vstd::prelude::*;
use crate::dict::Dict;
use crate::isa::{arity, opcode_named, opcode_of, word_is, Arith, Opcode, Relation};
use crate::number::{
    equal,
    is_zero,
    less,
    negated,
    real_eq,
    real_lt,
    real_of_int,
    truncate,
    truncated,
    zero,
    Real,
    RealView,
};
use crate::text::{
    chars_of,
    copy_lines,
    copy_of,
    decimal,
    decimal_of_i64,
    integer_value,
    magnitude,
    natural_value,
    read_integer,
    read_natural,
    split_words,
    string_of,
    string_of_range,
    words,
};

verus! {

/// What a register holds.
#[derive(Debug, Clone)]
pub enum Value {
    Int(i32),
    Float(Real),
}

/// A value with its texts as sequences of characters.
pub enum ValueView {
    Int(i32),
    Float(RealView),
}

impl View for Value {
    type V = ValueView;

    open spec fn view(&self) -> ValueView {
        match self {
            Value::Int(i) => ValueView::Int(*i),
            Value::Float(r) => ValueView::Float(r@),
        }
    }
}

/// A condition that ends the run.
#[derive(Debug, Clone, Copy, PartialEq, Eq, Structural)]
pub enum Fault {
    /// The first word of the line names no instruction.
    UnknownOpcode,
    /// The line lacks an operand, or its integer literal cannot be read.
    Malformed,
    /// An operand names a register that nothing has written.
    UnwrittenRegister,
    /// An address does not leave four bytes inside the memory.
    OutOfBounds,
    /// The divisor is zero.
    DivisionByZero,
}

/// What the machine asks of its caller.
#[derive(Debug, Clone)]
pub enum Demand {
    /// The real number that this text of a literal denotes.
    Read(String),
    /// The result of the operation on the two real numbers.
    Combine(Arith, Real, Real),
}

/// A demand with its texts as sequences of characters.
pub enum DemandView {
    Read(Seq<char>),
    Combine(Arith, RealView, RealView),
}

impl View for Demand {
    type V = DemandView;

    open spec fn view(&self) -> DemandView {
        match self {
            Demand::Read(t) => DemandView::Read(t@),
            Demand::Combine(op, a, b) => DemandView::Combine(*op, a@, b@),
        }
    }
}

/// How a step ended.
#[derive(Debug, Clone)]
pub enum Step {
    /// The program counter stands behind the last instruction.
    Halted,
    /// One instruction was run.
    Done,
    /// The instruction waits for a real number; nothing was changed.
    Awaits(Demand),
    /// The instruction cannot be run; nothing was changed.
    Fault(Fault),
}

/// How a step ended, with its texts as sequences of characters.
pub enum Outcome {
    Halted,
    Done,
    Awaits(DemandView),
    Fault(Fault),
}

impl View for Step {
    type V = Outcome;

    open spec fn view(&self) -> Outcome {
        match self {
            Step::Halted => Outcome::Halted,
            Step::Done => Outcome::Done,
            Step::Awaits(d) => Outcome::Awaits(d@),
            Step::Fault(f) => Outcome::Fault(*f),
        }
    }
}

/// The state of a machine.
pub struct Machine {
    pub registers: Map<Seq<char>, ValueView>,
    pub memory: Seq<u8>,
    pub bindings: Map<Seq<char>, usize>,
    pub next_addr: nat,
    pub pc: nat,
    pub program: Seq<Seq<char>>,
    pub output: Seq<Seq<char>>,
}

/// The integer of 32 bits that is congruent to `x`.
pub open spec fn wrap32(x: int) -> i32 {
    let r = x % 0x1_0000_0000;
    if r >= 0x8000_0000 {
        (r - 0x1_0000_0000) as i32
    } else {
        r as i32
    }
}

/// The quotient of `a` by `b`, cut off towards zero.
pub open spec fn quotient(a: int, b: int) -> int {
    let q = (if a < 0 {
        -a
    } else {
        a
    }) / (if b < 0 {
        -b
    } else {
        b
    });
    if (a < 0) != (b < 0) {
        -q
    } else {
        q
    }
}

/// The result of an integer operation, which wraps round on overflow.
pub open spec fn int_result(op: Arith, a: i32, b: i32) -> i32 {
    match op {
        Arith::Add => wrap32(a + b),
        Arith::Sub => wrap32(a - b),
        Arith::Mul => wrap32(a * b),
        Arith::Div => wrap32(quotient(a as int, b as int)),
    }
}

/// Whether a comparison holds of two integers.
pub open spec fn int_holds(rel: Relation, a: int, b: int) -> bool {
    match rel {
        Relation::Eq => a == b,
        Relation::Ne => a != b,
        Relation::Lt => a < b,
        Relation::Gt => a > b,
        Relation::Le => a <= b,
        Relation::Ge => a >= b,
    }
}

/// Whether a comparison holds of two real numbers. Nothing but `!=` holds
/// where either is no number.
pub open spec fn real_holds(rel: Relation, a: u64, b: u64) -> bool {
    match rel {
        Relation::Eq => real_eq(a, b),
        Relation::Ne => !real_eq(a, b),
        Relation::Lt => real_lt(a, b),
        Relation::Gt => real_lt(b, a),
        Relation::Le => real_lt(a, b) || real_eq(a, b),
        Relation::Ge => real_lt(b, a) || real_eq(a, b),
    }
}

/// A value as an integer: a real number is cut off towards zero.
pub open spec fn int_of(v: ValueView) -> i32 {
    match v {
        ValueView::Int(i) => i,
        ValueView::Float(r) => truncated(r.bits) as i32,
    }
}

/// The word that a value is stored as: an integer as it is, and of a real
/// number the low 32 bits of its bit pattern.
pub open spec fn stored_word(v: ValueView) -> i32 {
    match v {
        ValueView::Int(i) => i,
        ValueView::Float(r) => wrap32(r.bits as int),
    }
}

/// A value as a real number.
pub open spec fn real_of(v: ValueView) -> RealView {
    match v {
        ValueView::Int(i) => real_of_int(i as int),
        ValueView::Float(r) => r,
    }
}

/// A value as it is printed.
pub open spec fn shown(v: ValueView) -> Seq<char> {
    match v {
        ValueView::Int(i) => decimal(i as int),
        ValueView::Float(r) => r.text,
    }
}

/// The integer whose four bytes, lowest first, stand at address `a`.
pub open spec fn word_at(mem: Seq<u8>, a: int) -> i32 {
    wrap32(mem[a] + 0x100 * mem[a + 1] + 0x1_0000 * mem[a + 2] + 0x100_0000 * mem[a + 3])
}

/// Byte `k` of an integer, the lowest being byte 0.
pub open spec fn byte_of(i: i32, k: int) -> u8 {
    let u = if i < 0 {
        i + 0x1_0000_0000
    } else {
        i as int
    };
    if k == 0 {
        (u % 0x100) as u8
    } else if k == 1 {
        ((u / 0x100) % 0x100) as u8
    } else if k == 2 {
        ((u / 0x1_0000) % 0x100) as u8
    } else {
        ((u / 0x100_0000) % 0x100) as u8
    }
}

/// The memory with the four bytes of `i`, lowest first, at address `a`.
pub open spec fn with_word(mem: Seq<u8>, a: int, i: i32) -> Seq<u8> {
    mem.update(a, byte_of(i, 0)).update(a + 1, byte_of(i, 1)).update(a + 2, byte_of(i, 2)).update(
        a + 3,
        byte_of(i, 3),
    )
}

/// The memory with zero in every byte from `from` up to `to`.
pub open spec fn cleared(mem: Seq<u8>, from: int, to: int) -> Seq<u8> {
    Seq::new(
        mem.len(),
        |i: int|
            if from <= i < to {
                0u8
            } else {
                mem[i]
            },
    )
}

/// Whether four bytes at address `a` lie inside the memory.
pub open spec fn readable(m: Machine, a: int) -> bool {
    0 <= a && a + 4 <= m.memory.len()
}

/// The address that a name of digits gives directly.
pub open spec fn numeric_place(name: Seq<char>) -> Option<int> {
    match natural_value(name) {
        Some(v) => if v <= usize::MAX {
            Some(v as int)
        } else {
            None
        },
        None => None,
    }
}

/// Where a load from `@name` reads: the address that the name gives or is
/// bound to, and address 0 for a name not yet bound.
pub open spec fn place_read(m: Machine, name: Seq<char>) -> int {
    match numeric_place(name) {
        Some(a) => a,
        None => if m.bindings.contains_key(name) {
            m.bindings[name] as int
        } else {
            0
        },
    }
}

/// The machine with the value written into the register.
pub open spec fn with_register(m: Machine, name: Seq<char>, v: ValueView) -> Machine {
    Machine { registers: m.registers.insert(name, v), ..m }
}

/// Loads the word at address `a` into the register `dst`.
pub open spec fn load_from(m: Machine, dst: Seq<char>, a: int) -> (Machine, Outcome) {
    if readable(m, a) {
        (with_register(m, dst, ValueView::Int(word_at(m.memory, a))), Outcome::Done)
    } else {
        (m, Outcome::Fault(Fault::OutOfBounds))
    }
}

/// `LD dst src`. The source is a literal (`#text`: a real number where the
/// text holds a point, else an integer), a place in memory (`@name`), or a
/// register. A register that holds an integer from zero up is taken as an
/// address and the word there is loaded; any other value is copied.
pub open spec fn load(m: Machine, dst: Seq<char>, src: Seq<char>, supplied: Option<RealView>) -> (
    Machine,
    Outcome,
) {
    if src.len() > 0 && src[0] == '#' {
        let t = src.skip(1);
        if t.contains('.') {
            match supplied {
                Some(r) => (with_register(m, dst, ValueView::Float(r)), Outcome::Done),
                None => (m, Outcome::Awaits(DemandView::Read(t))),
            }
        } else {
            match integer_value(t) {
                Some(v) => if i32::MIN <= v <= i32::MAX {
                    (with_register(m, dst, ValueView::Int(v as i32)), Outcome::Done)
                } else {
                    (m, Outcome::Fault(Fault::Malformed))
                },
                None => (m, Outcome::Fault(Fault::Malformed)),
            }
        }
    } else if src.len() > 0 && src[0] == '@' {
        load_from(m, dst, place_read(m, src.skip(1)))
    } else if m.registers.contains_key(src) {
        match m.registers[src] {
            ValueView::Int(a) => if a >= 0 {
                load_from(m, dst, a as int)
            } else {
                (with_register(m, dst, ValueView::Int(a)), Outcome::Done)
            },
            ValueView::Float(r) => (with_register(m, dst, ValueView::Float(r)), Outcome::Done),
        }
    } else {
        (m, Outcome::Fault(Fault::UnwrittenRegister))
    }
}

/// Stores the word of the value at address `a`.
pub open spec fn store_at(m: Machine, a: int, v: ValueView) -> (Machine, Outcome) {
    if readable(m, a) {
        (Machine { memory: with_word(m.memory, a, stored_word(v)), ..m }, Outcome::Done)
    } else {
        (m, Outcome::Fault(Fault::OutOfBounds))
    }
}

/// How many bytes the first store to a name sets aside: four, or four for
/// each element where the stored value is an integer from one up.
pub open spec fn block_size(v: ValueView) -> int {
    match v {
        ValueView::Int(n) => if n >= 1 {
            4 * n
        } else {
            4
        },
        ValueView::Float(_) => 4,
    }
}

/// `ST dst src`. The destination is the print log (`@print`), a place in
/// memory (`@name`), or a register that holds the address.
pub open spec fn store(m: Machine, dst: Seq<char>, src: Seq<char>) -> (Machine, Outcome) {
    if !m.registers.contains_key(src) {
        (m, Outcome::Fault(Fault::UnwrittenRegister))
    } else {
        let v = m.registers[src];
        if dst == "@print"@ {
            (Machine { output: m.output.push(shown(v)), ..m }, Outcome::Done)
        } else if dst.len() > 0 && dst[0] == '@' {
            let name = dst.skip(1);
            match numeric_place(name) {
                Some(a) => store_at(m, a, v),
                None => if m.bindings.contains_key(name) {
                    store_at(m, m.bindings[name] as int, v)
                } else {
                    let a = m.next_addr as int;
                    let size = block_size(v);
                    if a + size > usize::MAX || !readable(m, a) {
                        (m, Outcome::Fault(Fault::OutOfBounds))
                    } else {
                        store_at(
                            Machine {
                                bindings: m.bindings.insert(name, a as usize),
                                next_addr: (a + size) as nat,
                                memory: cleared(m.memory, a, a + size),
                                ..m
                            },
                            a,
                            v,
                        )
                    }
                },
            }
        } else if !m.registers.contains_key(dst) {
            (m, Outcome::Fault(Fault::UnwrittenRegister))
        } else {
            match m.registers[dst] {
                ValueView::Int(a) => if a >= 0 {
                    store_at(m, a as int, v)
                } else {
                    (m, Outcome::Fault(Fault::OutOfBounds))
                },
                ValueView::Float(_) => (m, Outcome::Fault(Fault::OutOfBounds)),
            }
        }
    }
}

/// `ADD`, `SUB`, `MUL`, `DIV` with suffix `.i` or `.f`.
pub open spec fn arithmetic(
    m: Machine,
    op: Arith,
    on_reals: bool,
    dst: Seq<char>,
    a: Seq<char>,
    b: Seq<char>,
    supplied: Option<RealView>,
) -> (Machine, Outcome) {
    if !m.registers.contains_key(a) || !m.registers.contains_key(b) {
        (m, Outcome::Fault(Fault::UnwrittenRegister))
    } else if on_reals {
        let x = real_of(m.registers[a]);
        let y = real_of(m.registers[b]);
        if op == Arith::Div && is_zero(y.bits) {
            (m, Outcome::Fault(Fault::DivisionByZero))
        } else {
            match supplied {
                Some(r) => (with_register(m, dst, ValueView::Float(r)), Outcome::Done),
                None => (m, Outcome::Awaits(DemandView::Combine(op, x, y))),
            }
        }
    } else {
        let x = int_of(m.registers[a]);
        let y = int_of(m.registers[b]);
        if op == Arith::Div && y == 0 {
            (m, Outcome::Fault(Fault::DivisionByZero))
        } else {
            (with_register(m, dst, ValueView::Int(int_result(op, x, y))), Outcome::Done)
        }
    }
}

/// Whether a comparison holds of two values: both must be of the kind that
/// the suffix names, else it does not hold.
pub open spec fn holds(rel: Relation, on_reals: bool, x: ValueView, y: ValueView) -> bool {
    match (x, y) {
        (ValueView::Int(i), ValueView::Int(j)) => !on_reals && int_holds(rel, i as int, j as int),
        (ValueView::Float(r), ValueView::Float(s)) => on_reals && real_holds(rel, r.bits, s.bits),
        _ => false,
    }
}

/// `EQ`, `NE`, `LT`, `GT`, `LE`, `GE` with suffix `.i` or `.f`.
pub open spec fn comparison(
    m: Machine,
    rel: Relation,
    on_reals: bool,
    dst: Seq<char>,
    a: Seq<char>,
    b: Seq<char>,
) -> (Machine, Outcome) {
    if !m.registers.contains_key(a) || !m.registers.contains_key(b) {
        (m, Outcome::Fault(Fault::UnwrittenRegister))
    } else {
        let r: i32 = if holds(rel, on_reals, m.registers[a], m.registers[b]) {
            1
        } else {
            0
        };
        (with_register(m, dst, ValueView::Int(r)), Outcome::Done)
    }
}

/// `FL.i dst src`.
pub open spec fn to_real(m: Machine, dst: Seq<char>, src: Seq<char>) -> (Machine, Outcome) {
    if !m.registers.contains_key(src) {
        (m, Outcome::Fault(Fault::UnwrittenRegister))
    } else {
        (with_register(m, dst, ValueView::Float(real_of(m.registers[src]))), Outcome::Done)
    }
}

/// `NEG.i dst src` and `NEG.f dst src`.
pub open spec fn negation(m: Machine, on_reals: bool, dst: Seq<char>, src: Seq<char>) -> (
    Machine,
    Outcome,
) {
    if !m.registers.contains_key(src) {
        (m, Outcome::Fault(Fault::UnwrittenRegister))
    } else if on_reals {
        (
            with_register(m, dst, ValueView::Float(negated(real_of(m.registers[src])))),
            Outcome::Done,
        )
    } else {
        (
            with_register(m, dst, ValueView::Int(wrap32(-(int_of(m.registers[src]) as int)))),
            Outcome::Done,
        )
    }
}

/// `print src`: reads the register and changes nothing.
pub open spec fn print(m: Machine, src: Seq<char>) -> (Machine, Outcome) {
    if !m.registers.contains_key(src) {
        (m, Outcome::Fault(Fault::UnwrittenRegister))
    } else {
        (m, Outcome::Done)
    }
}

/// What one instruction does to the machine, the program counter apart.
pub open spec fn perform(
    m: Machine,
    op: Opcode,
    args: Seq<Seq<char>>,
    supplied: Option<RealView>,
) -> (Machine, Outcome) {
    match op {
        Opcode::Load => load(m, args[0], args[1], supplied),
        Opcode::Store => store(m, args[0], args[1]),
        Opcode::Arith(o, on_reals) => arithmetic(m, o, on_reals, args[0], args[1], args[2], supplied),
        Opcode::Compare(rel, on_reals) => comparison(m, rel, on_reals, args[0], args[1], args[2]),
        Opcode::ToReal => to_real(m, args[0], args[1]),
        Opcode::Negate(on_reals) => negation(m, on_reals, args[0], args[1]),
        Opcode::Print => print(m, args[0]),
    }
}

/// What one line does to the machine, the program counter apart. Words
/// behind the operands that the instruction reads are not looked at.
pub open spec fn execute(m: Machine, line: Seq<char>, supplied: Option<RealView>) -> (
    Machine,
    Outcome,
) {
    let ws = words(line);
    if ws.len() == 0 {
        (m, Outcome::Fault(Fault::UnknownOpcode))
    } else {
        match opcode_named(ws[0]) {
            None => (m, Outcome::Fault(Fault::UnknownOpcode)),
            Some(op) => if ws.len() < 1 + arity(op) {
                (m, Outcome::Fault(Fault::Malformed))
            } else {
                perform(m, op, ws.skip(1), supplied)
            },
        }
    }
}

/// One step of the machine: behind the last instruction nothing happens;
/// else the instruction at the program counter is run and, where it was run
/// to its end, the counter goes on by one.
pub open spec fn step(m: Machine, supplied: Option<RealView>) -> (Machine, Outcome) {
    if m.pc >= m.program.len() {
        (m, Outcome::Halted)
    } else {
        let (after, outcome) = execute(m, m.program[m.pc as int], supplied);
        if outcome is Done {
            (Machine { pc: m.pc + 1, program: m.program, ..after }, outcome)
        } else {
            (m, outcome)
        }
    }
}

/// The fault that the next step ends in, if it ends in one.
pub open spec fn fault_of(m: Machine) -> Option<Fault> {
    match step(m, None).1 {
        Outcome::Fault(f) => Some(f),
        _ => None,
    }
}

/// Whether a step ends in a fault, and in which, does not depend on the real
/// number that is handed in; and a fault leaves the machine as it was.
pub proof fn lemma_fault_needs_no_answer(m: Machine, answer: RealView)
    ensures
        step(m, Some(answer)).1 is Fault <==> fault_of(m) is Some,
        fault_of(m) is Some ==> step(m, Some(answer)) == (m, Outcome::Fault(fault_of(m)->0)),
        fault_of(m) is Some ==> step(m, None) == (m, Outcome::Fault(fault_of(m)->0)),
{
}

/// Steps until a step does not end in `Done`.
pub open spec fn run(m: Machine) -> (Machine, Outcome)
    decreases m.program.len() - m.pc,
{
    let (after, outcome) = step(m, None);
    if outcome is Done && m.pc < m.program.len() {
        run(after)
    } else {
        (after, outcome)
    }
}

/// Whether the loader keeps a line: it has a word, is no comment (`//`) and
/// is not the bare mark `ERROR` of a source line that could not be lowered.
pub open spec fn is_instruction(line: Seq<char>) -> bool {
    let ws = words(line);
    &&& ws.len() > 0
    &&& !(ws[0].len() >= 2 && ws[0][0] == '/' && ws[0][1] == '/')
    &&& !(ws.len() == 1 && ws[0] == "ERROR"@)
}

/// A machine with a memory of `size` zero bytes and nothing else.
pub open spec fn fresh(size: nat) -> Machine {
    Machine {
        registers: Map::empty(),
        memory: Seq::new(size, |i: int| 0u8),
        bindings: Map::empty(),
        next_addr: 0,
        pc: 0,
        program: Seq::empty(),
        output: Seq::empty(),
    }
}

/// The machine with the program made of the lines that the loader keeps, and
/// the program counter at its start.
pub open spec fn loaded(m: Machine, lines: Seq<Seq<char>>) -> Machine {
    Machine { program: lines.filter(|l: Seq<char>| is_instruction(l)), pc: 0, ..m }
}

/// The real number that was handed in, if one was.
pub open spec fn supplied_view(o: Option<Real>) -> Option<RealView> {
    match o {
        Some(r) => Some(r@),
        None => None,
    }
}

/// The integer of 32 bits that is congruent to `x`.
pub fn wrap_i32(x: i64) -> (r: i32)
    ensures
        r == wrap32(x as int),
{
    let m: u64 = if x >= 0 {
        (x as u64) % 0x1_0000_0000
    } else {
        let k = magnitude(x) % 0x1_0000_0000;
        if k == 0 {
            0
        } else {
            0x1_0000_0000 - k
        }
    };
    assert(m as int == (x as int) % 0x1_0000_0000);
    if m >= 0x8000_0000 {
        ((m - 0x8000_0000) as i32) + i32::MIN
    } else {
        m as i32
    }
}

/// The result of an integer operation, which wraps round on overflow.
pub fn compute(op: Arith, a: i32, b: i32) -> (r: i32)
    requires
        op == Arith::Div ==> b != 0,
    ensures
        r == int_result(op, a, b),
{
    match op {
        Arith::Add => wrap_i32(a as i64 + b as i64),
        Arith::Sub => wrap_i32(a as i64 - b as i64),
        Arith::Mul => {
            assert(-0x4000_0000_0000_0000 <= a * b <= 0x4000_0000_0000_0000) by (nonlinear_arith)
                requires
                    -0x8000_0000 <= a <= 0x7fff_ffff,
                    -0x8000_0000 <= b <= 0x7fff_ffff,
            ;
            wrap_i32((a as i64) * (b as i64))
        },
        Arith::Div => {
            let x = magnitude(a as i64);
            let y = magnitude(b as i64);
            let q = x / y;
            assert(q <= x) by (nonlinear_arith)
                requires
                    q == x / y,
                    y >= 1,
            ;
            if (a < 0) != (b < 0) {
                wrap_i32(-(q as i64))
            } else {
                wrap_i32(q as i64)
            }
        },
    }
}

/// Whether a comparison holds of two integers.
pub fn compare_ints(rel: Relation, a: i32, b: i32) -> (r: bool)
    ensures
        r == int_holds(rel, a as int, b as int),
{
    match rel {
        Relation::Eq => a == b,
        Relation::Ne => a != b,
        Relation::Lt => a < b,
        Relation::Gt => a > b,
        Relation::Le => a <= b,
        Relation::Ge => a >= b,
    }
}

/// Whether a comparison holds of two real numbers.
pub fn compare_reals(rel: Relation, a: u64, b: u64) -> (r: bool)
    ensures
        r == real_holds(rel, a, b),
{
    match rel {
        Relation::Eq => equal(a, b),
        Relation::Ne => !equal(a, b),
        Relation::Lt => less(a, b),
        Relation::Gt => less(b, a),
        Relation::Le => less(a, b) || equal(a, b),
        Relation::Ge => less(b, a) || equal(a, b),
    }
}

impl Value {
    /// The same value once more.
    pub fn copy(&self) -> (r: Value)
        ensures
            r@ == self@,
    {
        match self {
            Value::Int(i) => Value::Int(*i),
            Value::Float(x) => Value::Float(x.copy()),
        }
    }

    /// The value as an integer: a real number is cut off towards zero and
    /// held to the range of `i32`.
    pub fn as_int(&self) -> (r: i32)
        ensures
            r == int_of(self@),
    {
        match self {
            Value::Int(i) => *i,
            Value::Float(x) => truncate(x.bits),
        }
    }

    /// The word that the value is stored as.
    pub fn as_word(&self) -> (r: i32)
        ensures
            r == stored_word(self@),
    {
        match self {
            Value::Int(i) => *i,
            Value::Float(x) => wrap_i32((x.bits % 0x1_0000_0000) as i64),
        }
    }

    /// The value as a real number.
    pub fn as_float(&self) -> (r: Real)
        ensures
            r@ == real_of(self@),
    {
        match self {
            Value::Int(i) => Real::from_i32(*i),
            Value::Float(x) => x.copy(),
        }
    }

    /// The value as it is printed.
    pub fn to_string(&self) -> (r: String)
        ensures
            r@ == shown(self@),
    {
        match self {
            Value::Int(i) => {
                let v = decimal_of_i64(*i as i64);
                string_of(&v)
            },
            Value::Float(x) => x.text.clone(),
        }
    }
}

/// The word without its first character.
fn rest_of(w: &String) -> (r: String)
    requires
        w@.len() > 0,
    ensures
        r@ == w@.skip(1),
{
    let v = chars_of(w.as_str());
    let r = string_of_range(&v, 1, v.len());
    assert(v@.subrange(1, v.len() as int) == v@.skip(1));
    r
}

fn first_is(w: &String, c: char) -> (r: bool)
    ensures
        r == (w@.len() > 0 && w@[0] == c),
{
    let v = chars_of(w.as_str());
    v.len() > 0 && v[0] == c
}

fn has_point(w: &String) -> (r: bool)
    ensures
        r == w@.contains('.'),
{
    let v = chars_of(w.as_str());
    let mut i: usize = 0;
    while i < v.len()
        invariant
            i <= v.len(),
            v@ == w@,
            forall|j: int| 0 <= j < i ==> v@[j] != '.',
        decreases v.len() - i,
    {
        if v[i] == '.' {
            assert(w@[i as int] == '.');
            return true;
        }
        i += 1;
    }
    false
}

fn numeric(name: &String) -> (r: Option<usize>)
    ensures
        r is Some <==> numeric_place(name@) is Some,
        r is Some ==> r->0 as int == numeric_place(name@)->0,
{
    let v = chars_of(name.as_str());
    match read_natural(&v, usize::MAX as u128) {
        Some(a) => Some(a as usize),
        None => None,
    }
}

/// Whether the loader keeps the line.
pub fn instruction(line: &String) -> (r: bool)
    ensures
        r == is_instruction(line@),
{
    let v = chars_of(line.as_str());
    let ws = split_words(&v);
    if ws.len() == 0 {
        return false;
    }
    assert(ws.deep_view()[0] == ws[0]@);
    let first = chars_of(ws[0].as_str());
    if first.len() >= 2 && first[0] == '/' && first[1] == '/' {
        return false;
    }
    if ws.len() == 1 && word_is(&ws[0], "ERROR") {
        return false;
    }
    true
}

/// The machine.
pub struct VM {
    registers: Dict<Value>,
    memory: Vec<u8>,
    memory_map: Dict<usize>,
    pc: usize,
    program: Vec<String>,
    output: Vec<String>,
    next_addr: usize,
}

impl View for VM {
    type V = Machine;

    closed spec fn view(&self) -> Machine {
        Machine {
            registers: self.registers.map(),
            memory: self.memory@,
            bindings: self.memory_map.map(),
            next_addr: self.next_addr as nat,
            pc: self.pc as nat,
            program: self.program.deep_view(),
            output: self.output.deep_view(),
        }
    }
}

impl VM {
    /// A machine with a memory of `memory_size` zero bytes, no register
    /// written, no name bound and no program.
    pub fn new(memory_size: usize) -> (vm: VM)
        ensures
            vm@ == fresh(memory_size as nat),
    {
        let mut memory: Vec<u8> = Vec::new();
        let mut i: usize = 0;
        while i < memory_size
            invariant
                i <= memory_size,
                memory@ == Seq::new(i as nat, |j: int| 0u8),
            decreases memory_size - i,
        {
            memory.push(0u8);
            assert(memory@ =~= Seq::new((i + 1) as nat, |j: int| 0u8));
            i += 1;
        }
        let vm = VM {
            registers: Dict::new(),
            memory,
            memory_map: Dict::new(),
            pc: 0,
            program: Vec::new(),
            output: Vec::new(),
            next_addr: 0,
        };
        assert(vm.program.deep_view() =~= Seq::<Seq<char>>::empty());
        assert(vm.output.deep_view() =~= Seq::<Seq<char>>::empty());
        vm
    }

    /// Loads a program: the lines that are instructions are kept, in order,
    /// and the program counter goes to the first of them. Registers, memory
    /// and the print log stay as they are.
    pub fn load_program(&mut self, program: Vec<String>)
        ensures
            final(self)@ == loaded(old(self)@, program.deep_view()),
    {
        let mut kept: Vec<String> = Vec::new();
        let ghost lines = program.deep_view();
        let ghost keep = |l: Seq<char>| is_instruction(l);
        let mut i: usize = 0;
        assert(kept.deep_view() =~= Seq::<Seq<char>>::empty());
        assert(lines.take(0) =~= Seq::<Seq<char>>::empty());
        while i < program.len()
            invariant
                i <= program.len(),
                lines == program.deep_view(),
                keep == (|l: Seq<char>| is_instruction(l)),
                kept.deep_view() == lines.take(i as int).filter(keep),
            decreases program.len() - i,
        {
            let ghost before = kept.deep_view();
            assert(lines[i as int] == program[i as int]@);
            proof {
                reveal(Seq::filter);
                assert(lines.take(i + 1).drop_last() == lines.take(i as int));
                assert(lines.take(i + 1).last() == lines[i as int]);
            }
            if instruction(&program[i]) {
                kept.push(program[i].clone());
                assert(kept.deep_view() =~= before.push(lines[i as int]));
            }
            i += 1;
        }
        assert(lines.take(program.len() as int) == lines);
        self.program = kept;
        self.pc = 0;
    }

    /// The word at an address.
    fn load_from_memory(&self, a: usize) -> (r: i32)
        requires
            readable(self@, a as int),
        ensures
            r == word_at(self@.memory, a as int),
    {
        assert(a + 4 <= self.memory.len());
        let u: u64 = (self.memory[a] as u64) + 0x100 * (self.memory[a + 1] as u64) + 0x1_0000 * (
        self.memory[a + 2] as u64) + 0x100_0000 * (self.memory[a + 3] as u64);
        wrap_i32(u as i64)
    }

    /// Writes a word at an address.
    fn store_to_memory(&mut self, a: usize, i: i32)
        requires
            readable(old(self)@, a as int),
        ensures
            final(self)@ == (Machine {
                memory: with_word(old(self)@.memory, a as int, i),
                ..old(self)@
            }),
    {
        let u: u64 = if i < 0 {
            ((i as i64) + 0x1_0000_0000) as u64
        } else {
            i as u64
        };
        assert(a + 4 <= self.memory.len());
        self.memory.set(a, (u % 0x100) as u8);
        self.memory.set(a + 1, ((u / 0x100) % 0x100) as u8);
        self.memory.set(a + 2, ((u / 0x1_0000) % 0x100) as u8);
        self.memory.set(a + 3, ((u / 0x100_0000) % 0x100) as u8);
    }

    fn set_register(&mut self, name: &String, v: Value)
        ensures
            final(self)@ == with_register(old(self)@, name@, v@),
    {
        self.registers.insert(name.clone(), v);
    }

    fn load_word(&mut self, dst: &String, a: usize) -> (r: Step)
        ensures
            (final(self)@, r@) == load_from(old(self)@, dst@, a as int),
    {
        if a <= self.memory.len() && self.memory.len() - a >= 4 {
            let w = self.load_from_memory(a);
            self.set_register(dst, Value::Int(w));
            Step::Done
        } else {
            Step::Fault(Fault::OutOfBounds)
        }
    }

    fn store_word(&mut self, a: usize, v: &Value) -> (r: Step)
        ensures
            (final(self)@, r@) == store_at(old(self)@, a as int, v@),
    {
        if a <= self.memory.len() && self.memory.len() - a >= 4 {
            self.store_to_memory(a, v.as_word());
            Step::Done
        } else {
            Step::Fault(Fault::OutOfBounds)
        }
    }

    fn do_load(&mut self, dst: &String, src: &String, supplied: Option<Real>) -> (r: Step)
        ensures
            (final(self)@, r@) == load(old(self)@, dst@, src@, supplied_view(supplied)),
    {
        if first_is(src, '#') {
            let t = rest_of(src);
            if has_point(&t) {
                match supplied {
                    Some(x) => {
                        self.set_register(dst, Value::Float(x));
                        Step::Done
                    },
                    None => Step::Awaits(Demand::Read(t)),
                }
            } else {
                let v = chars_of(t.as_str());
                match read_integer(&v, 0x8000_0000, 0x7fff_ffff) {
                    Some(i) => {
                        self.set_register(dst, Value::Int(i as i32));
                        Step::Done
                    },
                    None => Step::Fault(Fault::Malformed),
                }
            }
        } else if first_is(src, '@') {
            let name = rest_of(src);
            let a: usize = match numeric(&name) {
                Some(a) => a,
                None => match self.memory_map.get(&name) {
                    Some(a) => *a,
                    None => 0,
                },
            };
            self.load_word(dst, a)
        } else {
            let held: Option<Value> = match self.registers.get(src) {
                Some(v) => Some(v.copy()),
                None => None,
            };
            match held {
                Some(Value::Int(a)) => {
                    if a >= 0 {
                        self.load_word(dst, a as usize)
                    } else {
                        self.set_register(dst, Value::Int(a));
                        Step::Done
                    }
                },
                Some(Value::Float(x)) => {
                    self.set_register(dst, Value::Float(x));
                    Step::Done
                },
                None => Step::Fault(Fault::UnwrittenRegister),
            }
        }
    }

    /// Binds a new name to the next free address and clears its block.
    fn bind(&mut self, name: String, size: usize)
        requires
            old(self)@.next_addr + size <= usize::MAX,
        ensures
            final(self)@ == (Machine {
                bindings: old(self)@.bindings.insert(name@, old(self)@.next_addr as usize),
                next_addr: (old(self)@.next_addr + size) as nat,
                memory: cleared(
                    old(self)@.memory,
                    old(self)@.next_addr as int,
                    old(self)@.next_addr + size,
                ),
                ..old(self)@
            }),
    {
        let a = self.next_addr;
        let end = a + size;
        let ghost before = self.memory@;
        let mut i: usize = a;
        while i < end && i < self.memory.len()
            invariant
                a <= i <= end,
                end == a + size,
                self.memory@.len() == before.len(),
                self.memory@ == cleared(before, a as int, i as int),
                self.registers == old(self).registers,
                self.memory_map == old(self).memory_map,
                self.pc == old(self).pc,
                self.program == old(self).program,
                self.output == old(self).output,
                self.next_addr == old(self).next_addr,
            decreases self.memory.len() - i,
        {
            self.memory.set(i, 0u8);
            assert(self.memory@ =~= cleared(before, a as int, i + 1));
            i += 1;
        }
        assert(self.memory@ =~= cleared(before, a as int, end as int));
        self.memory_map.insert(name, a);
        self.next_addr = end;
    }

    fn do_store(&mut self, dst: &String, src: &String) -> (r: Step)
        ensures
            (final(self)@, r@) == store(old(self)@, dst@, src@),
    {
        let held: Option<Value> = match self.registers.get(src) {
            Some(v) => Some(v.copy()),
            None => None,
        };
        let v = match held {
            Some(v) => v,
            None => {
                return Step::Fault(Fault::UnwrittenRegister);
            },
        };
        if word_is(dst, "@print") {
            let ghost before = self.output.deep_view();
            let t = v.to_string();
            self.output.push(t);
            assert(self.output.deep_view() =~= before.push(shown(v@)));
            Step::Done
        } else if first_is(dst, '@') {
            let name = rest_of(dst);
            match numeric(&name) {
                Some(a) => self.store_word(a, &v),
                None => {
                    let bound: Option<usize> = match self.memory_map.get(&name) {
                        Some(a) => Some(*a),
                        None => None,
                    };
                    match bound {
                        Some(a) => self.store_word(a, &v),
                        None => {
                            let a = self.next_addr;
                            let size: u64 = match &v {
                                Value::Int(n) => if *n >= 1 {
                                    4 * (*n as u64)
                                } else {
                                    4
                                },
                                Value::Float(_) => 4,
                            };
                            if size > (usize::MAX - a) as u64 || !(a <= self.memory.len()
                                && self.memory.len() - a >= 4) {
                                Step::Fault(Fault::OutOfBounds)
                            } else {
                                self.bind(name, size as usize);
                                self.store_word(a, &v)
                            }
                        },
                    }
                },
            }
        } else {
            let target: Option<Value> = match self.registers.get(dst) {
                Some(t) => Some(t.copy()),
                None => None,
            };
            match target {
                None => Step::Fault(Fault::UnwrittenRegister),
                Some(Value::Int(a)) => {
                    if a >= 0 {
                        self.store_word(a as usize, &v)
                    } else {
                        Step::Fault(Fault::OutOfBounds)
                    }
                },
                Some(Value::Float(_)) => Step::Fault(Fault::OutOfBounds),
            }
        }
    }

    fn operands(&self, a: &String, b: &String) -> (r: Option<(Value, Value)>)
        ensures
            r is Some <==> (self@.registers.contains_key(a@) && self@.registers.contains_key(b@)),
            match r {
                Some((x, y)) => x@ == self@.registers[a@] && y@ == self@.registers[b@],
                None => true,
            },
    {
        match self.registers.get(a) {
            Some(x) => match self.registers.get(b) {
                Some(y) => Some((x.copy(), y.copy())),
                None => None,
            },
            None => None,
        }
    }

    fn do_arithmetic(
        &mut self,
        op: Arith,
        on_reals: bool,
        dst: &String,
        a: &String,
        b: &String,
        supplied: Option<Real>,
    ) -> (r: Step)
        ensures
            (final(self)@, r@) == arithmetic(
                old(self)@,
                op,
                on_reals,
                dst@,
                a@,
                b@,
                supplied_view(supplied),
            ),
    {
        let (x, y) = match self.operands(a, b) {
            Some(p) => p,
            None => {
                return Step::Fault(Fault::UnwrittenRegister);
            },
        };
        if on_reals {
            let xr = x.as_float();
            let yr = y.as_float();
            if op == Arith::Div && zero(yr.bits) {
                Step::Fault(Fault::DivisionByZero)
            } else {
                match supplied {
                    Some(s) => {
                        self.set_register(dst, Value::Float(s));
                        Step::Done
                    },
                    None => Step::Awaits(Demand::Combine(op, xr, yr)),
                }
            }
        } else {
            let xi = x.as_int();
            let yi = y.as_int();
            if op == Arith::Div && yi == 0 {
                Step::Fault(Fault::DivisionByZero)
            } else {
                self.set_register(dst, Value::Int(compute(op, xi, yi)));
                Step::Done
            }
        }
    }

    fn do_comparison(&mut self, rel: Relation, on_reals: bool, dst: &String, a: &String, b: &String) -> (r:
        Step)
        ensures
            (final(self)@, r@) == comparison(old(self)@, rel, on_reals, dst@, a@, b@),
    {
        let (x, y) = match self.operands(a, b) {
            Some(p) => p,
            None => {
                return Step::Fault(Fault::UnwrittenRegister);
            },
        };
        let h = match (&x, &y) {
            (Value::Int(i), Value::Int(j)) => !on_reals && compare_ints(rel, *i, *j),
            (Value::Float(r), Value::Float(s)) => on_reals && compare_reals(rel, r.bits, s.bits),
            _ => false,
        };
        self.set_register(
            dst,
            Value::Int(
                if h {
                    1
                } else {
                    0
                },
            ),
        );
        Step::Done
    }

    fn source(&self, src: &String) -> (r: Option<Value>)
        ensures
            r is Some <==> self@.registers.contains_key(src@),
            r is Some ==> r->0@ == self@.registers[src@],
    {
        match self.registers.get(src) {
            Some(v) => Some(v.copy()),
            None => None,
        }
    }

    fn do_to_real(&mut self, dst: &String, src: &String) -> (r: Step)
        ensures
            (final(self)@, r@) == to_real(old(self)@, dst@, src@),
    {
        match self.source(src) {
            None => Step::Fault(Fault::UnwrittenRegister),
            Some(v) => {
                self.set_register(dst, Value::Float(v.as_float()));
                Step::Done
            },
        }
    }

    fn do_negation(&mut self, on_reals: bool, dst: &String, src: &String) -> (r: Step)
        ensures
            (final(self)@, r@) == negation(old(self)@, on_reals, dst@, src@),
    {
        match self.source(src) {
            None => Step::Fault(Fault::UnwrittenRegister),
            Some(v) => {
                if on_reals {
                    self.set_register(dst, Value::Float(v.as_float().negate()));
                } else {
                    self.set_register(dst, Value::Int(wrap_i32(-(v.as_int() as i64))));
                }
                Step::Done
            },
        }
    }

    fn do_print(&mut self, src: &String) -> (r: Step)
        ensures
            (final(self)@, r@) == print(old(self)@, src@),
    {
        match self.source(src) {
            None => Step::Fault(Fault::UnwrittenRegister),
            Some(_) => Step::Done,
        }
    }

    /// Runs one line.
    fn execute(&mut self, line: &String, supplied: Option<Real>) -> (r: Step)
        ensures
            (final(self)@, r@) == execute(old(self)@, line@, supplied_view(supplied)),
    {
        let v = chars_of(line.as_str());
        let ws = split_words(&v);
        if ws.len() == 0 {
            return Step::Fault(Fault::UnknownOpcode);
        }
        assert(ws.deep_view()[0] == ws[0]@);
        let op = match opcode_of(&ws[0]) {
            Some(op) => op,
            None => {
                return Step::Fault(Fault::UnknownOpcode);
            },
        };
        let ghost args = ws.deep_view().skip(1);
        match op {
            Opcode::Load => {
                if ws.len() < 3 {
                    return Step::Fault(Fault::Malformed);
                }
                assert(args[0] == ws[1]@ && args[1] == ws[2]@);
                self.do_load(&ws[1], &ws[2], supplied)
            },
            Opcode::Store => {
                if ws.len() < 3 {
                    return Step::Fault(Fault::Malformed);
                }
                assert(args[0] == ws[1]@ && args[1] == ws[2]@);
                self.do_store(&ws[1], &ws[2])
            },
            Opcode::Arith(o, on_reals) => {
                if ws.len() < 4 {
                    return Step::Fault(Fault::Malformed);
                }
                assert(args[0] == ws[1]@ && args[1] == ws[2]@ && args[2] == ws[3]@);
                self.do_arithmetic(o, on_reals, &ws[1], &ws[2], &ws[3], supplied)
            },
            Opcode::Compare(rel, on_reals) => {
                if ws.len() < 4 {
                    return Step::Fault(Fault::Malformed);
                }
                assert(args[0] == ws[1]@ && args[1] == ws[2]@ && args[2] == ws[3]@);
                self.do_comparison(rel, on_reals, &ws[1], &ws[2], &ws[3])
            },
            Opcode::ToReal => {
                if ws.len() < 3 {
                    return Step::Fault(Fault::Malformed);
                }
                assert(args[0] == ws[1]@ && args[1] == ws[2]@);
                self.do_to_real(&ws[1], &ws[2])
            },
            Opcode::Negate(on_reals) => {
                if ws.len() < 3 {
                    return Step::Fault(Fault::Malformed);
                }
                assert(args[0] == ws[1]@ && args[1] == ws[2]@);
                self.do_negation(on_reals, &ws[1], &ws[2])
            },
            Opcode::Print => {
                if ws.len() < 2 {
                    return Step::Fault(Fault::Malformed);
                }
                assert(args[0] == ws[1]@);
                self.do_print(&ws[1])
            },
        }
    }

    fn advance(&mut self, supplied: Option<Real>) -> (r: Step)
        ensures
            (final(self)@, r@) == step(old(self)@, supplied_view(supplied)),
    {
        if self.pc >= self.program.len() {
            return Step::Halted;
        }
        let line = self.program[self.pc].clone();
        assert(self.program.deep_view()[self.pc as int] == self.program[self.pc as int]@);
        let r = self.execute(&line, supplied);
        match r {
            Step::Done => {
                self.pc = self.pc + 1;
                Step::Done
            },
            other => other,
        }
    }

    /// The same machine once more.
    fn copy(&self) -> (r: VM)
        ensures
            r@ == self@,
    {
        let mut registers: Dict<Value> = Dict::new();
        let mut i: usize = 0;
        while i < self.registers.len()
            invariant
                i <= self.registers.names().len(),
                registers.names() == self.registers.names().take(i as int),
                registers.values() == self.registers.values().take(i as int),
            decreases self.registers.names().len() - i,
        {
            registers.push(self.registers.name_at(i).clone(), self.registers.value_at(i).copy());
            assert(self.registers.names().take(i + 1) =~= self.registers.names().take(
                i as int,
            ).push(self.registers.names()[i as int]));
            assert(self.registers.values().take(i + 1) =~= self.registers.values().take(
                i as int,
            ).push(self.registers.values()[i as int]));
            i += 1;
        }
        let mut memory_map: Dict<usize> = Dict::new();
        let mut j: usize = 0;
        while j < self.memory_map.len()
            invariant
                j <= self.memory_map.names().len(),
                memory_map.names() == self.memory_map.names().take(j as int),
                memory_map.values() == self.memory_map.values().take(j as int),
            decreases self.memory_map.names().len() - j,
        {
            memory_map.push(self.memory_map.name_at(j).clone(), *self.memory_map.value_at(j));
            assert(self.memory_map.names().take(j + 1) =~= self.memory_map.names().take(
                j as int,
            ).push(self.memory_map.names()[j as int]));
            assert(self.memory_map.values().take(j + 1) =~= self.memory_map.values().take(
                j as int,
            ).push(self.memory_map.values()[j as int]));
            j += 1;
        }
        assert(registers.names() =~= self.registers.names());
        assert(registers.values() =~= self.registers.values());
        assert(memory_map.names() =~= self.memory_map.names());
        assert(memory_map.values() =~= self.memory_map.values());
        VM {
            registers,
            memory: copy_of(&self.memory),
            memory_map,
            pc: self.pc,
            program: copy_lines(&self.program),
            output: copy_lines(&self.output),
            next_addr: self.next_addr,
        }
    }

    /// The fault that the next step would end in; nothing where it would
    /// end in none. The machine is tried on a copy and stays as it is.
    pub fn fault(&self) -> (r: Option<Fault>)
        ensures
            r == fault_of(self@),
    {
        let mut probe = self.copy();
        match probe.advance(None) {
            Step::Fault(f) => Some(f),
            _ => None,
        }
    }

    /// Runs the instruction at the program counter. A step that would end in
    /// a fault is left out: `fault` tells beforehand.
    pub fn step(&mut self) -> (r: Step)
        requires
            fault_of(old(self)@) is None,
        ensures
            (final(self)@, r@) == step(old(self)@, None),
            !(r is Fault),
    {
        self.advance(None)
    }

    /// Runs the instruction at the program counter with `answer` as the real
    /// number that it waits for. An instruction that waits for none runs as
    /// in `step`. A step that would end in a fault is left out.
    pub fn resume(&mut self, answer: Real) -> (r: Step)
        requires
            fault_of(old(self)@) is None,
        ensures
            (final(self)@, r@) == step(old(self)@, Some(answer@)),
            !(r is Fault),
    {
        proof {
            lemma_fault_needs_no_answer(self@, answer@);
        }
        self.advance(Some(answer))
    }

    /// Steps until a step does not end in `Done`, and says how that step
    /// ended: where it ended in a fault, the run is over, and the machine is
    /// as the last step before it left it.
    pub fn run(&mut self) -> (r: Step)
        ensures
            (final(self)@, r@) == run(old(self)@),
    {
        loop
            invariant
                run(self@) == run(old(self)@),
            decreases self@.program.len() - self@.pc,
        {
            let ghost before = self@;
            let r = self.advance(None);
            match r {
                Step::Done => {
                    assert(before.pc < before.program.len());
                },
                other => {
                    return other;
                },
            }
        }
    }

    /// The registers, the memory and the program counter.
    pub fn get_state(&self) -> (r: (&Dict<Value>, &Vec<u8>, usize))
        ensures
            ({
                let (registers, memory, pc) = r;
                &&& registers.map() == self@.registers
                &&& memory@ == self@.memory
                &&& pc == self@.pc
            }),
    {
        (&self.registers, &self.memory, self.pc)
    }

    /// The word at an address; nothing where its four bytes do not lie
    /// inside the memory.
    pub fn word(&self, address: usize) -> (r: Option<i32>)
        ensures
            r is Some <==> readable(self@, address as int),
            r is Some ==> r->0 == word_at(self@.memory, address as int),
    {
        if address <= self.memory.len() && self.memory.len() - address >= 4 {
            Some(self.load_from_memory(address))
        } else {
            None
        }
    }

    /// The lines of the loaded program.
    pub fn get_program(&self) -> (r: Vec<String>)
        ensures
            r.deep_view() == self@.program,
    {
        copy_lines(&self.program)
    }

    /// What was printed, oldest first.
    pub fn get_output(&self) -> (r: &Vec<String>)
        ensures
            r.deep_view() == self@.output,
    {
        &self.output
    }

    /// Empties the print log.
    pub fn clear_output(&mut self)
        ensures
            final(self)@ == (Machine { output: Seq::empty(), ..old(self)@ }),
    {
        self.output = Vec::new();
        assert(self.output.deep_view() =~= Seq::<Seq<char>>::empty());
    }
}

/// Where the run of `R`s ends that starts at `i`.
pub open spec fn prefix_end(name: Seq<char>, i: int) -> int
    decreases name.len() - i,
{
    if i < 0 || i >= name.len() || name[i] != 'R' {
        i
    } else {
        prefix_end(name, i + 1)
    }
}

/// The number by which a register is put in order where registers are
/// shown: what its name denotes without the `R`s it starts with, and zero
/// where that is no integer of 32 bits.
pub open spec fn register_order(name: Seq<char>) -> i32 {
    let e = prefix_end(name, 0);
    if 0 <= e <= name.len() {
        match integer_value(name.skip(e)) {
            Some(v) => if i32::MIN <= v <= i32::MAX {
                v as i32
            } else {
                0
            },
            None => 0,
        }
    } else {
        0
    }
}

/// The number by which a register is put in order where registers are
/// shown.
pub fn register_number(name: &String) -> (r: i32)
    ensures
        r == register_order(name@),
{
    let v = chars_of(name.as_str());
    let mut e: usize = 0;
    while e < v.len() && v[e] == 'R'
        invariant
            e <= v.len(),
            prefix_end(v@, e as int) == prefix_end(v@, 0),
        decreases v.len() - e,
    {
        e += 1;
    }
    let mut rest: Vec<char> = Vec::new();
    let mut i: usize = e;
    while i < v.len()
        invariant
            e <= i <= v.len(),
            rest@ == v@.subrange(e as int, i as int),
        decreases v.len() - i,
    {
        rest.push(v[i]);
        assert(v@.subrange(e as int, i as int).push(v@[i as int]) == v@.subrange(e as int, i + 1));
        i += 1;
    }
    assert(v@.subrange(e as int, v.len() as int) == v@.skip(e as int));
    match read_integer(&rest, 0x8000_0000, 0x7fff_ffff) {
        Some(n) => n as i32,
        None => 0,
    }
}

} // verus!
