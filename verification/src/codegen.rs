//! The code generator: one syntax tree in, its instruction lines out.
//!
//! `lowering` says which lines a tree is lowered to and how many scratch
//! registers they take, counted from the first free one. A tree that cannot
//! be lowered gives the one line `ERROR` and takes no register.
//! `generate_assembly` computes the lines of one tree with scratch registers
//! numbered from zero, which `assembly` states.

use vstd::prelude::*;
use crate::ast::{tree, Expr, ExprView};
use crate::isa::{
    at_name,
    at_word,
    immediate,
    immediate_int,
    immediate_text,
    line2,
    line3,
    line_of,
    register,
    register_name,
    word_is,
    Arith,
    Opcode,
    Relation,
};
use crate::number::{is_whole, is_zero, negated, whole, zero, Real, RealView};
use crate::text::{
    chars_of,
    decimal,
    integer_value,
    push_str,
    read_integer,
    string_of,
    string_of_range,
};

verus! {

/// Hands out the numbers of scratch registers, each one once, counting up.
pub struct RegisterAllocator {
    next_reg: i64,
}

impl RegisterAllocator {
    /// The number that is handed out next.
    pub closed spec fn next(&self) -> int {
        self.next_reg as int
    }

    /// An allocator that has handed out nothing.
    pub fn new() -> (r: Self)
        ensures
            r.next() == 0,
    {
        RegisterAllocator { next_reg: 0 }
    }

    /// The number that is handed out next.
    fn upcoming(&self) -> (reg: i64)
        ensures
            reg == self.next(),
    {
        self.next_reg
    }

    /// Hands out the next number.
    pub fn get_next_reg(&mut self) -> (reg: i64)
        requires
            old(self).next() < i64::MAX,
        ensures
            reg == old(self).next(),
            final(self).next() == reg + 1,
    {
        let reg = self.next_reg;
        self.next_reg += 1;
        reg
    }
}

/// The one line that stands for a tree that cannot be lowered.
pub open spec fn error_lines() -> Seq<Seq<char>> {
    seq!["ERROR"@]
}

/// `LD Rr #t`.
pub open spec fn load_literal(r: int, t: Seq<char>) -> Seq<char> {
    line_of(Opcode::Load, seq![register(r), immediate(t)])
}

/// `LD Rr #n`.
pub open spec fn load_int(r: int, n: int) -> Seq<char> {
    load_literal(r, decimal(n))
}

/// `LD Rr @name`.
pub open spec fn load_name(r: int, name: Seq<char>) -> Seq<char> {
    line_of(Opcode::Load, seq![register(r), at_name(name)])
}

/// `LD Rr Rs`.
pub open spec fn load_through(r: int, s: int) -> Seq<char> {
    line_of(Opcode::Load, seq![register(r), register(s)])
}

/// `ST @name Rr`.
pub open spec fn store_name(name: Seq<char>, r: int) -> Seq<char> {
    line_of(Opcode::Store, seq![at_name(name), register(r)])
}

/// `ST @print Rr`.
pub open spec fn store_print(r: int) -> Seq<char> {
    store_name("print"@, r)
}

/// `ST Ra Rr`.
pub open spec fn store_through(a: int, r: int) -> Seq<char> {
    line_of(Opcode::Store, seq![register(a), register(r)])
}

/// An instruction on three registers: destination and two sources.
pub open spec fn three(op: Opcode, d: int, a: int, b: int) -> Seq<char> {
    line_of(op, seq![register(d), register(a), register(b)])
}

/// `FL.i Rr Rr`.
pub open spec fn widen(r: int) -> Seq<char> {
    line_of(Opcode::ToReal, seq![register(r), register(r)])
}

/// `NEG.i Rr Rr`.
pub open spec fn negate_int(r: int) -> Seq<char> {
    line_of(Opcode::Negate(false), seq![register(r), register(r)])
}

/// The address of an element: the index goes to register `i`, the element
/// size 4 to register `f`, their product to register `p`, and the base in
/// register `b` plus the product to register `s`.
pub open spec fn address(i: int, f: int, p: int, s: int, b: int, index: int) -> Seq<Seq<char>> {
    seq![
        load_int(i, index),
        load_int(f, 4),
        three(Opcode::Arith(Arith::Mul, false), p, i, f),
        three(Opcode::Arith(Arith::Add, false), s, b, p),
    ]
}

/// The first place from `i` on at which `c` stands, or the length of the
/// text.
pub open spec fn find_char(s: Seq<char>, c: char, i: int) -> int
    decreases s.len() - i,
{
    if i < 0 || i >= s.len() || s[i] == c {
        i
    } else {
        find_char(s, c, i + 1)
    }
}

/// The length of `s[..n]` without the `c`s at its end.
pub open spec fn end_without(s: Seq<char>, c: char, n: int) -> int
    decreases n,
{
    if n <= 0 || n > s.len() || s[n - 1] != c {
        n
    } else {
        end_without(s, c, n - 1)
    }
}

/// Whether the target of an assignment names an element of a list: it holds
/// an opening and a closing square bracket.
pub open spec fn is_element(target: Seq<char>) -> bool {
    find_char(target, '[', 0) < target.len() && find_char(target, ']', 0) < target.len()
}

/// The name of the list in the target of an element assignment: what stands
/// before the first opening bracket.
pub open spec fn element_name(target: Seq<char>) -> Seq<char> {
    target.take(find_char(target, '[', 0))
}

/// The text of the index in the target of an element assignment: what stands
/// between the first opening bracket and the next one or the end, without
/// the closing brackets at its end and without one pair of round brackets
/// around it.
pub open spec fn index_text(target: Seq<char>) -> Seq<char> {
    let i = find_char(target, '[', 0);
    let j = find_char(target, '[', i + 1);
    let mid = target.subrange(i + 1, j);
    let t = mid.take(end_without(mid, ']', mid.len() as int));
    if t.len() >= 2 && t[0] == '(' && t[t.len() - 1] == ')' {
        t.subrange(1, t.len() - 1)
    } else {
        t
    }
}

/// The index in the target of an element assignment.
pub open spec fn element_index(target: Seq<char>) -> Option<i64> {
    match integer_value(index_text(target)) {
        Some(v) => if i64::MIN <= v <= i64::MAX {
            Some(v as i64)
        } else {
            None
        },
        None => None,
    }
}

/// A number written out in the source: a literal, or a minus sign before one.
pub enum Literal {
    Whole(int),
    Fraction(RealView),
}

/// The literal that a tree is, if it is one.
pub open spec fn literal_of(e: ExprView) -> Option<Literal> {
    match e {
        ExprView::Int(n) => Some(Literal::Whole(n as int)),
        ExprView::Float(x) => Some(Literal::Fraction(x)),
        ExprView::UnaryOp(op, inner) => if op == "-"@ {
            match *inner {
                ExprView::Int(n) => Some(Literal::Whole(-(n as int))),
                ExprView::Float(x) => Some(Literal::Fraction(negated(x))),
                _ => None,
            }
        } else {
            None
        },
        _ => None,
    }
}

/// Whether a literal is zero, of either sign.
pub open spec fn literal_is_zero(l: Literal) -> bool {
    match l {
        Literal::Whole(n) => n == 0,
        Literal::Fraction(x) => is_zero(x.bits),
    }
}

/// The text of a real literal in arithmetic: a whole number gets `.0` behind
/// it, so that it is read as a real number again.
pub open spec fn literal_text(x: RealView) -> Seq<char> {
    if is_whole(x.bits) {
        x.text + ".0"@
    } else {
        x.text
    }
}

/// The lines that load a literal into register `r`; an integer is widened
/// where the operation is on real numbers.
pub open spec fn literal_load(r: int, l: Literal, on_reals: bool) -> Seq<Seq<char>> {
    match l {
        Literal::Whole(n) => if on_reals {
            seq![load_int(r, n), widen(r)]
        } else {
            seq![load_int(r, n)]
        },
        Literal::Fraction(x) => seq![load_literal(r, literal_text(x))],
    }
}

/// The opcode of a binary operator.
pub open spec fn binary_opcode(op: Seq<char>, on_reals: bool) -> Option<Opcode> {
    if op == "+"@ {
        Some(Opcode::Arith(Arith::Add, on_reals))
    } else if op == "-"@ {
        Some(Opcode::Arith(Arith::Sub, on_reals))
    } else if op == "*"@ {
        Some(Opcode::Arith(Arith::Mul, on_reals))
    } else if op == "/"@ {
        Some(Opcode::Arith(Arith::Div, on_reals))
    } else {
        relation_opcode(op, on_reals)
    }
}

/// The opcode of a comparison operator.
pub open spec fn relation_opcode(op: Seq<char>, on_reals: bool) -> Option<Opcode> {
    if op == "=="@ {
        Some(Opcode::Compare(Relation::Eq, on_reals))
    } else if op == "!="@ {
        Some(Opcode::Compare(Relation::Ne, on_reals))
    } else if op == "<"@ {
        Some(Opcode::Compare(Relation::Lt, on_reals))
    } else if op == ">"@ {
        Some(Opcode::Compare(Relation::Gt, on_reals))
    } else if op == "<="@ {
        Some(Opcode::Compare(Relation::Le, on_reals))
    } else if op == ">="@ {
        Some(Opcode::Compare(Relation::Ge, on_reals))
    } else {
        None
    }
}

/// What a tree is lowered to: its lines, and how many scratch registers
/// they take.
pub struct Lowering {
    pub lines: Seq<Seq<char>>,
    pub registers: int,
}

/// A constant and a variable, with `b` the first free register: the
/// constant is loaded first, whichever side it stood on. A comparison whose
/// constant stood on the right reads its two registers in the other order,
/// so that it still compares left with right; an arithmetic operation does
/// not.
pub open spec fn constant_and_variable(
    b: int,
    n: int,
    name: Seq<char>,
    op: Seq<char>,
    swapped: bool,
) -> Option<Lowering> {
    match binary_opcode(op, false) {
        None => None,
        Some(code) => Some(
            Lowering {
                lines: seq![
                    load_int(b, n),
                    load_name(b + 1, name),
                    if swapped && code is Compare {
                        three(code, b + 2, b + 1, b)
                    } else {
                        three(code, b + 2, b, b + 1)
                    },
                    store_print(b + 2),
                ],
                registers: 3,
            },
        ),
    }
}

/// A binary operation whose result is printed, with `b` the first free
/// register. It takes three registers, and none where it cannot be
/// lowered: where the operator is not known, the divisor is a literal zero,
/// or an operand is neither a literal nor a variable.
pub open spec fn binary(b: int, l: ExprView, op: Seq<char>, r: ExprView) -> Option<Lowering> {
    match (literal_of(l), literal_of(r)) {
        (Some(x), Some(y)) => {
            let on_reals = x is Fraction || y is Fraction;
            match binary_opcode(op, on_reals) {
                None => None,
                Some(code) => if op == "/"@ && literal_is_zero(y) {
                    None
                } else {
                    Some(
                        Lowering {
                            lines: literal_load(b, x, on_reals) + literal_load(
                                b + 1,
                                y,
                                on_reals,
                            ) + seq![three(code, b + 2, b, b + 1), store_print(b + 2)],
                            registers: 3,
                        },
                    )
                },
            }
        },
        _ => match (l, r) {
            (ExprView::Int(n), ExprView::Variable(name)) => constant_and_variable(
                b,
                n as int,
                name,
                op,
                false,
            ),
            (ExprView::Variable(name), ExprView::Int(n)) => constant_and_variable(
                b,
                n as int,
                name,
                op,
                true,
            ),
            (ExprView::Variable(x), ExprView::Variable(y)) => match binary_opcode(op, false) {
                None => None,
                Some(code) => Some(
                    Lowering {
                        lines: seq![
                            load_name(b, x),
                            load_name(b + 1, y),
                            three(code, b + 2, b, b + 1),
                            store_print(b + 2),
                        ],
                        registers: 3,
                    },
                ),
            },
            _ => None,
        },
    }
}

/// Whether the operand of a comparison is a real literal, with a minus sign
/// before it or none.
pub open spec fn is_real_literal(e: ExprView) -> bool {
    match e {
        ExprView::Float(_) => true,
        ExprView::UnaryOp(op, inner) => op == "-"@ && *inner is Float,
        _ => false,
    }
}

/// The lines that widen registers `b` and `b + 1` where the comparison is
/// on real numbers.
pub open spec fn widen_both(b: int, on_reals: bool) -> Seq<Seq<char>> {
    if on_reals {
        seq![widen(b), widen(b + 1)]
    } else {
        Seq::empty()
    }
}

/// The lines that load the negated left operand of a comparison into
/// register `b`.
pub open spec fn negated_load(b: int, inner: ExprView) -> Option<Seq<Seq<char>>> {
    match inner {
        ExprView::Variable(name) => Some(seq![load_name(b, name), negate_int(b)]),
        ExprView::Float(x) => Some(seq![load_literal(b, negated(x).text)]),
        ExprView::Int(n) => Some(seq![load_int(b, -(n as int))]),
        _ => None,
    }
}

/// The line that loads the right operand of a comparison into register `r`.
pub open spec fn plain_load(r: int, right: ExprView) -> Option<Seq<char>> {
    match right {
        ExprView::Variable(name) => Some(load_name(r, name)),
        ExprView::Int(n) => Some(load_int(r, n as int)),
        ExprView::Float(x) => Some(load_literal(r, x.text)),
        _ => None,
    }
}

/// The lines that load the two operands of a comparison into registers `b`
/// and `b + 1`, in the order in which they stand.
pub open spec fn operand_loads(b: int, l: ExprView, r: ExprView, on_reals: bool) -> Option<
    Seq<Seq<char>>,
> {
    match (l, r) {
        (ExprView::Variable(name), ExprView::Int(n)) => Some(
            seq![load_name(b, name), load_int(b + 1, n as int)] + widen_both(b, on_reals),
        ),
        (ExprView::Int(n), ExprView::Variable(name)) => Some(
            seq![load_int(b, n as int), load_name(b + 1, name)] + widen_both(b, on_reals),
        ),
        (ExprView::Variable(x), ExprView::Variable(y)) => Some(
            seq![load_name(b, x), load_name(b + 1, y)] + widen_both(b, on_reals),
        ),
        (ExprView::Int(n), ExprView::Float(x)) => Some(
            seq![load_int(b, n as int), widen(b), load_literal(b + 1, x.text)],
        ),
        (ExprView::Float(x), ExprView::Int(n)) => Some(
            seq![load_literal(b, x.text), load_int(b + 1, n as int), widen(b + 1)],
        ),
        (ExprView::Variable(name), ExprView::Float(x)) => Some(
            seq![load_name(b, name), widen(b), load_literal(b + 1, x.text)],
        ),
        (ExprView::Float(x), ExprView::Variable(name)) => Some(
            seq![load_literal(b, x.text), load_name(b + 1, name), widen(b + 1)],
        ),
        (ExprView::UnaryOp(op, inner), right) => if op == "-"@ {
            match (negated_load(b, *inner), plain_load(b + 1, right)) {
                (Some(first), Some(second)) => Some(
                    first.push(second) + (if on_reals && !is_real_literal(*inner) {
                        seq![widen(b)]
                    } else {
                        Seq::empty()
                    }) + (if on_reals && !is_real_literal(right) {
                        seq![widen(b + 1)]
                    } else {
                        Seq::empty()
                    }),
                ),
                _ => None,
            }
        } else {
            None
        },
        _ => None,
    }
}

/// A comparison whose result is printed, with `b` the first free register.
/// The comparison is on real numbers where an operand is a real literal,
/// and always for `!=`. It takes three registers, and none where it cannot
/// be lowered.
pub open spec fn boolean(b: int, l: ExprView, op: Seq<char>, r: ExprView) -> Option<Lowering> {
    let on_reals = is_real_literal(l) || is_real_literal(r) || op == "!="@;
    match (operand_loads(b, l, r, on_reals), relation_opcode(op, on_reals)) {
        (Some(loads), Some(code)) => Some(
            Lowering {
                lines: loads + seq![three(code, b + 2, b, b + 1), store_print(b + 2)],
                registers: 3,
            },
        ),
        _ => None,
    }
}

/// The lines that store the zero in register `b` into elements `from..to`
/// of the list whose base is in register `b + 1`.
pub open spec fn element_zeros(b: int, from: int, to: int) -> Seq<Seq<char>>
    decreases to - from,
{
    if from >= to {
        Seq::empty()
    } else {
        element_zeros(b, from, to - 1) + address(b + 2, b + 3, b + 4, b + 5, b + 1, to - 1)
            + seq![store_through(b + 5, b)]
    }
}

/// An assignment to a variable, with `b` the first free register: one
/// register for a number or a variable, six for a list, five for an element
/// of a list.
pub open spec fn assign(b: int, name: Seq<char>, value: ExprView) -> Option<Lowering> {
    match value {
        ExprView::Int(n) => Some(
            Lowering { lines: seq![load_int(b, n as int), store_name(name, b)], registers: 1 },
        ),
        ExprView::Float(x) => Some(
            Lowering { lines: seq![load_literal(b, x.text), store_name(name, b)], registers: 1 },
        ),
        ExprView::Variable(other) => Some(
            Lowering { lines: seq![load_name(b, other), store_name(name, b)], registers: 1 },
        ),
        ExprView::List(elements) => Some(
            Lowering {
                lines: seq![load_int(b, 0), load_name(b + 1, name)] + element_zeros(
                    b,
                    0,
                    elements.len() as int,
                ),
                registers: 6,
            },
        ),
        ExprView::ListAccess(list, index) => match *index {
            ExprView::Int(i) => Some(
                Lowering {
                    lines: seq![load_name(b, list)] + address(
                        b + 1,
                        b + 2,
                        b + 3,
                        b + 4,
                        b,
                        i as int,
                    ) + seq![load_through(b, b + 4), store_name(name, b)],
                    registers: 5,
                },
            ),
            _ => None,
        },
        _ => None,
    }
}

/// The lines that store the value in register `b` into element `index` of
/// the list `list`.
pub open spec fn store_element(b: int, list: Seq<char>, index: int) -> Seq<Seq<char>> {
    seq![load_name(b + 1, list)] + address(b + 2, b + 3, b + 4, b + 2, b + 1, index) + seq![
        store_through(b + 2, b),
    ]
}

/// An assignment to element `index` of the list `list`, with `b` the first
/// free register: five registers for a number, six for an element of
/// another list.
pub open spec fn assign_element(b: int, list: Seq<char>, index: int, value: ExprView) -> Option<
    Lowering,
> {
    match value {
        ExprView::Int(n) => Some(
            Lowering {
                lines: seq![load_int(b, n as int)] + store_element(b, list, index),
                registers: 5,
            },
        ),
        ExprView::Float(x) => Some(
            Lowering {
                lines: seq![load_literal(b, x.text)] + store_element(b, list, index),
                registers: 5,
            },
        ),
        ExprView::ListAccess(source, at) => match *at {
            ExprView::Int(i) => Some(
                Lowering {
                    lines: seq![load_name(b, source)] + address(
                        b + 1,
                        b + 2,
                        b + 3,
                        b + 4,
                        b,
                        i as int,
                    ) + seq![load_through(b + 5, b + 4), load_name(b, list)] + address(
                        b + 1,
                        b + 2,
                        b + 3,
                        b + 4,
                        b,
                        index,
                    ) + seq![store_through(b + 4, b + 5)],
                    registers: 6,
                },
            ),
            _ => None,
        },
        ExprView::UnaryOp(op, inner) => if op == "-"@ {
            match *inner {
                ExprView::Int(n) => Some(
                    Lowering {
                        lines: seq![load_int(b, -(n as int))] + store_element(b, list, index),
                        registers: 5,
                    },
                ),
                ExprView::Float(x) => Some(
                    Lowering {
                        lines: seq![load_literal(b, negated(x).text)] + store_element(
                            b,
                            list,
                            index,
                        ),
                        registers: 5,
                    },
                ),
                _ => None,
            }
        } else {
            None
        },
        _ => None,
    }
}

/// An assignment, with `b` the first free register: to an element of a
/// list where the target names one, else to a variable.
pub open spec fn assignment(b: int, target: Seq<char>, value: ExprView) -> Option<Lowering> {
    if is_element(target) {
        match element_index(target) {
            Some(index) => assign_element(b, element_name(target), index as int, value),
            None => None,
        }
    } else {
        assign(b, target, value)
    }
}

/// The lines that print element `index` of the list `list`, with `b` the
/// first free register.
pub open spec fn print_element(b: int, list: Seq<char>, index: int) -> Lowering {
    Lowering {
        lines: seq![load_name(b, list)] + address(b + 1, b + 2, b + 3, b + 4, b, index) + seq![
            store_print(b + 4),
        ],
        registers: 5,
    }
}

/// What a tree is lowered to with `b` the first free register; nothing for
/// a tree that cannot be lowered.
pub open spec fn lowering(b: int, e: ExprView) -> Option<Lowering> {
    match e {
        ExprView::Assignment(target, value) => assignment(b, target, *value),
        ExprView::Int(n) => Some(
            Lowering { lines: seq![load_int(b, n as int), store_print(b)], registers: 1 },
        ),
        ExprView::Float(x) => Some(
            Lowering { lines: seq![load_literal(b, x.text), store_print(b)], registers: 1 },
        ),
        ExprView::BinaryOp(l, op, r) => binary(b, *l, op, *r),
        ExprView::Boolean(l, op, r) => boolean(b, *l, op, *r),
        ExprView::ListAccess(list, index) => match *index {
            ExprView::Int(i) => Some(print_element(b, list, i as int)),
            _ => None,
        },
        _ => None,
    }
}

/// The lines of a lowering; the one line `ERROR` where there is none.
pub open spec fn lines_of(l: Option<Lowering>) -> Seq<Seq<char>> {
    match l {
        Some(l) => l.lines,
        None => error_lines(),
    }
}

/// The registers that a lowering takes; none where there is none.
pub open spec fn registers_of(l: Option<Lowering>) -> int {
    match l {
        Some(l) => l.registers,
        None => 0,
    }
}

/// The instruction lines that a tree is lowered to, with scratch registers
/// numbered from zero.
pub open spec fn assembly(e: ExprView) -> Seq<Seq<char>> {
    lines_of(lowering(0, e))
}

fn emit(out: &mut Vec<String>, line: String)
    ensures
        final(out).deep_view() == old(out).deep_view().push(line@),
{
    let ghost before = out.deep_view();
    out.push(line);
    assert(out.deep_view() =~= before.push(line@));
}

fn no_lines() -> (out: Vec<String>)
    ensures
        out.deep_view() == Seq::<Seq<char>>::empty(),
{
    let out: Vec<String> = Vec::new();
    assert(out.deep_view() =~= Seq::<Seq<char>>::empty());
    out
}

fn only_error() -> (out: Vec<String>)
    ensures
        out.deep_view() == error_lines(),
{
    let mut out = no_lines();
    emit(&mut out, String::from_str("ERROR"));
    out
}

fn emit_load_text(out: &mut Vec<String>, r: i64, t: &str)
    ensures
        final(out).deep_view() == old(out).deep_view().push(load_literal(r as int, t@)),
{
    emit(out, line2(Opcode::Load, &register_name(r), &immediate_text(t)));
}

fn emit_load_int(out: &mut Vec<String>, r: i64, n: i128)
    requires
        -0x8000_0000_0000_0000_0000 <= n <= 0x8000_0000_0000_0000_0000,
    ensures
        final(out).deep_view() == old(out).deep_view().push(load_int(r as int, n as int)),
{
    emit(out, line2(Opcode::Load, &register_name(r), &immediate_int(n)));
}

fn emit_load_name(out: &mut Vec<String>, r: i64, name: &String)
    ensures
        final(out).deep_view() == old(out).deep_view().push(load_name(r as int, name@)),
{
    emit(out, line2(Opcode::Load, &register_name(r), &at_word(name.as_str())));
}

fn emit_load_through(out: &mut Vec<String>, r: i64, s: i64)
    ensures
        final(out).deep_view() == old(out).deep_view().push(load_through(r as int, s as int)),
{
    emit(out, line2(Opcode::Load, &register_name(r), &register_name(s)));
}

fn emit_store_name(out: &mut Vec<String>, name: &String, r: i64)
    ensures
        final(out).deep_view() == old(out).deep_view().push(store_name(name@, r as int)),
{
    emit(out, line2(Opcode::Store, &at_word(name.as_str()), &register_name(r)));
}

fn emit_store_print(out: &mut Vec<String>, r: i64)
    ensures
        final(out).deep_view() == old(out).deep_view().push(store_print(r as int)),
{
    emit(out, line2(Opcode::Store, &at_word("print"), &register_name(r)));
}

fn emit_store_through(out: &mut Vec<String>, a: i64, r: i64)
    ensures
        final(out).deep_view() == old(out).deep_view().push(store_through(a as int, r as int)),
{
    emit(out, line2(Opcode::Store, &register_name(a), &register_name(r)));
}

fn emit_three(out: &mut Vec<String>, op: Opcode, d: i64, a: i64, b: i64)
    ensures
        final(out).deep_view() == old(out).deep_view().push(
            three(op, d as int, a as int, b as int),
        ),
{
    emit(out, line3(op, &register_name(d), &register_name(a), &register_name(b)));
}

fn emit_widen(out: &mut Vec<String>, r: i64)
    ensures
        final(out).deep_view() == old(out).deep_view().push(widen(r as int)),
{
    emit(out, line2(Opcode::ToReal, &register_name(r), &register_name(r)));
}

fn emit_negate(out: &mut Vec<String>, r: i64)
    ensures
        final(out).deep_view() == old(out).deep_view().push(negate_int(r as int)),
{
    emit(out, line2(Opcode::Negate(false), &register_name(r), &register_name(r)));
}

fn emit_address(out: &mut Vec<String>, i: i64, f: i64, p: i64, s: i64, b: i64, index: i128)
    requires
        -0x8000_0000_0000_0000_0000 <= index <= 0x8000_0000_0000_0000_0000,
    ensures
        final(out).deep_view() == old(out).deep_view() + address(
            i as int,
            f as int,
            p as int,
            s as int,
            b as int,
            index as int,
        ),
{
    let ghost before = out.deep_view();
    emit_load_int(out, i, index);
    emit_load_int(out, f, 4);
    emit_three(out, Opcode::Arith(Arith::Mul, false), p, i, f);
    emit_three(out, Opcode::Arith(Arith::Add, false), s, b, p);
    assert(out.deep_view() =~= before + address(
        i as int,
        f as int,
        p as int,
        s as int,
        b as int,
        index as int,
    ));
}

fn find(s: &Vec<char>, c: char, from: usize) -> (r: usize)
    requires
        from <= s.len(),
    ensures
        r == find_char(s@, c, from as int),
        from <= r <= s.len(),
{
    let mut i: usize = from;
    while i < s.len() && s[i] != c
        invariant
            from <= i <= s.len(),
            find_char(s@, c, i as int) == find_char(s@, c, from as int),
        decreases s.len() - i,
    {
        i += 1;
    }
    i
}

fn copy_range(v: &Vec<char>, from: usize, to: usize) -> (r: Vec<char>)
    requires
        from <= to <= v.len(),
    ensures
        r@ == v@.subrange(from as int, to as int),
{
    let mut r: Vec<char> = Vec::new();
    let mut i: usize = from;
    while i < to
        invariant
            from <= i <= to <= v.len(),
            r@ == v@.subrange(from as int, i as int),
        decreases to - i,
    {
        r.push(v[i]);
        assert(v@.subrange(from as int, i as int).push(v@[i as int]) == v@.subrange(
            from as int,
            i + 1,
        ));
        i += 1;
    }
    r
}

/// The list and the index that the target of an element assignment names.
fn element_target(target: &Vec<char>) -> (r: Option<(String, i64)>)
    requires
        is_element(target@),
    ensures
        r is Some <==> element_index(target@) is Some,
        match r {
            Some((name, index)) => name@ == element_name(target@) && Some(index) == element_index(
                target@,
            ),
            None => true,
        },
{
    let i = find(target, '[', 0);
    let j = find(target, '[', i + 1);
    let mid = copy_range(target, i + 1, j);
    let mut n: usize = mid.len();
    while n > 0 && mid[n - 1] == ']'
        invariant
            n <= mid.len(),
            end_without(mid@, ']', n as int) == end_without(mid@, ']', mid.len() as int),
        decreases n,
    {
        n -= 1;
    }
    let t = copy_range(&mid, 0, n);
    assert(t@ == mid@.take(n as int));
    let u = if t.len() >= 2 && t[0] == '(' && t[t.len() - 1] == ')' {
        copy_range(&t, 1, t.len() - 1)
    } else {
        t
    };
    assert(u@ == index_text(target@));
    match read_integer(&u, 0x8000_0000_0000_0000, 0x7fff_ffff_ffff_ffff) {
        Some(v) => {
            let name = string_of_range(target, 0, i);
            assert(target@.subrange(0, i as int) == target@.take(i as int));
            Some((name, v as i64))
        },
        None => None,
    }
}

/// A literal operand, as `literal_of` finds it: `Whole(true, n)` stands for
/// the number `-n`.
enum Operand {
    Whole(bool, i64),
    Fraction(Real),
}

impl Operand {
    spec fn literal(self) -> Literal {
        match self {
            Operand::Whole(minus, n) => Literal::Whole(
                if minus {
                    -(n as int)
                } else {
                    n as int
                },
            ),
            Operand::Fraction(x) => Literal::Fraction(x@),
        }
    }
}

fn operand_of(e: &Expr) -> (r: Option<Operand>)
    ensures
        r is Some <==> literal_of(e@) is Some,
        r is Some ==> r->0.literal() == literal_of(e@)->0,
{
    proof {
        reveal_with_fuel(tree, 3);
    }
    match e {
        Expr::Int(n) => Some(Operand::Whole(false, *n)),
        Expr::Float(x) => Some(Operand::Fraction(x.copy())),
        Expr::UnaryOp(op, inner) => {
            if word_is(op, "-") {
                match &**inner {
                    Expr::Int(n) => Some(Operand::Whole(true, *n)),
                    Expr::Float(x) => Some(Operand::Fraction(x.negate())),
                    _ => None,
                }
            } else {
                None
            }
        },
        _ => None,
    }
}

fn emit_literal(out: &mut Vec<String>, r: i64, l: &Operand, on_reals: bool)
    ensures
        final(out).deep_view() == old(out).deep_view() + literal_load(
            r as int,
            l.literal(),
            on_reals,
        ),
{
    let ghost before = out.deep_view();
    match l {
        Operand::Whole(minus, n) => {
            if *minus {
                emit_load_int(out, r, -(*n as i128));
            } else {
                emit_load_int(out, r, *n as i128);
            }
            if on_reals {
                emit_widen(out, r);
            }
        },
        Operand::Fraction(x) => {
            if whole(x.bits) {
                let mut t: Vec<char> = chars_of(x.text.as_str());
                push_str(&mut t, ".0");
                let s = string_of(&t);
                emit_load_text(out, r, s.as_str());
            } else {
                emit_load_text(out, r, x.text.as_str());
            }
        },
    }
    assert(out.deep_view() =~= before + literal_load(r as int, l.literal(), on_reals));
}

fn relation_code(op: &String, on_reals: bool) -> (r: Option<Opcode>)
    ensures
        r == relation_opcode(op@, on_reals),
{
    if word_is(op, "==") {
        Some(Opcode::Compare(Relation::Eq, on_reals))
    } else if word_is(op, "!=") {
        Some(Opcode::Compare(Relation::Ne, on_reals))
    } else if word_is(op, "<") {
        Some(Opcode::Compare(Relation::Lt, on_reals))
    } else if word_is(op, ">") {
        Some(Opcode::Compare(Relation::Gt, on_reals))
    } else if word_is(op, "<=") {
        Some(Opcode::Compare(Relation::Le, on_reals))
    } else if word_is(op, ">=") {
        Some(Opcode::Compare(Relation::Ge, on_reals))
    } else {
        None
    }
}

fn binary_code(op: &String, on_reals: bool) -> (r: Option<Opcode>)
    ensures
        r == binary_opcode(op@, on_reals),
{
    if word_is(op, "+") {
        Some(Opcode::Arith(Arith::Add, on_reals))
    } else if word_is(op, "-") {
        Some(Opcode::Arith(Arith::Sub, on_reals))
    } else if word_is(op, "*") {
        Some(Opcode::Arith(Arith::Mul, on_reals))
    } else if word_is(op, "/") {
        Some(Opcode::Arith(Arith::Div, on_reals))
    } else {
        relation_code(op, on_reals)
    }
}

/// Takes `k` registers.
fn take(reg_alloc: &mut RegisterAllocator, k: i64)
    requires
        0 <= k,
        old(reg_alloc).next() + k <= i64::MAX,
    ensures
        final(reg_alloc).next() == old(reg_alloc).next() + k,
{
    let mut i: i64 = 0;
    while i < k
        invariant
            0 <= i <= k,
            reg_alloc.next() == old(reg_alloc).next() + i,
            old(reg_alloc).next() + k <= i64::MAX,
        decreases k - i,
    {
        reg_alloc.get_next_reg();
        i += 1;
    }
}

fn constant_with_variable(
    n: i64,
    name: &String,
    op: &String,
    swapped: bool,
    reg_alloc: &mut RegisterAllocator,
) -> (out: Vec<String>)
    requires
        old(reg_alloc).next() + 6 <= i64::MAX,
    ensures
        out.deep_view() == lines_of(
            constant_and_variable(old(reg_alloc).next(), n as int, name@, op@, swapped),
        ),
        final(reg_alloc).next() == old(reg_alloc).next() + registers_of(
            constant_and_variable(old(reg_alloc).next(), n as int, name@, op@, swapped),
        ),
{
    let code = match binary_code(op, false) {
        Some(code) => code,
        None => {
            return only_error();
        },
    };
    let r0 = reg_alloc.get_next_reg();
    let r1 = reg_alloc.get_next_reg();
    let r2 = reg_alloc.get_next_reg();
    let mut out = no_lines();
    emit_load_int(&mut out, r0, n as i128);
    emit_load_name(&mut out, r1, name);
    let compares = match code {
        Opcode::Compare(_, _) => true,
        _ => false,
    };
    if swapped && compares {
        emit_three(&mut out, code, r2, r1, r0);
    } else {
        emit_three(&mut out, code, r2, r0, r1);
    }
    emit_store_print(&mut out, r2);
    out
}

/// The lines of a binary operation whose result is printed, with scratch
/// registers taken from `reg_alloc`: three where the operation is lowered,
/// and none where the lines are the one line `ERROR`.
pub fn generate_binary_arithmetic(
    left: &Expr,
    right: &Expr,
    op: &String,
    reg_alloc: &mut RegisterAllocator,
) -> (out: Vec<String>)
    requires
        old(reg_alloc).next() + 6 <= i64::MAX,
    ensures
        out.deep_view() == lines_of(binary(old(reg_alloc).next(), left@, op@, right@)),
        final(reg_alloc).next() == old(reg_alloc).next() + registers_of(
            binary(old(reg_alloc).next(), left@, op@, right@),
        ),
{
    proof {
        reveal_with_fuel(tree, 3);
    }
    let first = operand_of(left);
    let second = operand_of(right);
    match (first, second) {
        (Some(x), Some(y)) => {
            let on_reals = match (&x, &y) {
                (Operand::Whole(_, _), Operand::Whole(_, _)) => false,
                _ => true,
            };
            let code = match binary_code(op, on_reals) {
                Some(code) => code,
                None => {
                    return only_error();
                },
            };
            let divisor_is_zero = match &y {
                Operand::Whole(_, n) => *n == 0,
                Operand::Fraction(v) => zero(v.bits),
            };
            if word_is(op, "/") && divisor_is_zero {
                return only_error();
            }
            let r0 = reg_alloc.get_next_reg();
            let r1 = reg_alloc.get_next_reg();
            let r2 = reg_alloc.get_next_reg();
            let mut out = no_lines();
            emit_literal(&mut out, r0, &x, on_reals);
            emit_literal(&mut out, r1, &y, on_reals);
            emit_three(&mut out, code, r2, r0, r1);
            emit_store_print(&mut out, r2);
            assert(out.deep_view() =~= lines_of(
                binary(old(reg_alloc).next(), left@, op@, right@),
            ));
            out
        },
        _ => {
            match (left, right) {
                (Expr::Int(n), Expr::Variable(name)) => constant_with_variable(
                    *n,
                    name,
                    op,
                    false,
                    reg_alloc,
                ),
                (Expr::Variable(name), Expr::Int(n)) => constant_with_variable(
                    *n,
                    name,
                    op,
                    true,
                    reg_alloc,
                ),
                (Expr::Variable(x), Expr::Variable(y)) => {
                    let code = match binary_code(op, false) {
                        Some(code) => code,
                        None => {
                            return only_error();
                        },
                    };
                    let r0 = reg_alloc.get_next_reg();
                    let r1 = reg_alloc.get_next_reg();
                    let r2 = reg_alloc.get_next_reg();
                    let mut out = no_lines();
                    emit_load_name(&mut out, r0, x);
                    emit_load_name(&mut out, r1, y);
                    emit_three(&mut out, code, r2, r0, r1);
                    emit_store_print(&mut out, r2);
                    out
                },
                _ => only_error(),
            }
        },
    }
}

fn real_literal(e: &Expr) -> (r: bool)
    ensures
        r == is_real_literal(e@),
{
    proof {
        reveal_with_fuel(tree, 3);
    }
    match e {
        Expr::Float(_) => true,
        Expr::UnaryOp(op, inner) => {
            let inner_is_real = match &**inner {
                Expr::Float(_) => true,
                _ => false,
            };
            word_is(op, "-") && inner_is_real
        },
        _ => false,
    }
}

fn emit_widen_both(out: &mut Vec<String>, b: i64, on_reals: bool)
    requires
        b < i64::MAX,
    ensures
        final(out).deep_view() == old(out).deep_view() + widen_both(b as int, on_reals),
{
    let ghost before = out.deep_view();
    if on_reals {
        emit_widen(out, b);
        emit_widen(out, b + 1);
    }
    assert(out.deep_view() =~= before + widen_both(b as int, on_reals));
}

/// The lines that load the two operands of a comparison into registers `b`
/// and `b + 1`.
fn load_operands(b: i64, left: &Expr, right: &Expr, on_reals: bool) -> (r: Option<Vec<String>>)
    requires
        b < i64::MAX,
    ensures
        r is Some <==> operand_loads(b as int, left@, right@, on_reals) is Some,
        r is Some ==> r->0.deep_view() == operand_loads(b as int, left@, right@, on_reals)->0,
{
    proof {
        reveal_with_fuel(tree, 3);
    }
    let mut out = no_lines();
    match (left, right) {
        (Expr::Variable(name), Expr::Int(n)) => {
            emit_load_name(&mut out, b, name);
            emit_load_int(&mut out, b + 1, *n as i128);
            emit_widen_both(&mut out, b, on_reals);
            Some(out)
        },
        (Expr::Int(n), Expr::Variable(name)) => {
            emit_load_int(&mut out, b, *n as i128);
            emit_load_name(&mut out, b + 1, name);
            emit_widen_both(&mut out, b, on_reals);
            Some(out)
        },
        (Expr::Variable(x), Expr::Variable(y)) => {
            emit_load_name(&mut out, b, x);
            emit_load_name(&mut out, b + 1, y);
            emit_widen_both(&mut out, b, on_reals);
            Some(out)
        },
        (Expr::Int(n), Expr::Float(x)) => {
            emit_load_int(&mut out, b, *n as i128);
            emit_widen(&mut out, b);
            emit_load_text(&mut out, b + 1, x.text.as_str());
            Some(out)
        },
        (Expr::Float(x), Expr::Int(n)) => {
            emit_load_text(&mut out, b, x.text.as_str());
            emit_load_int(&mut out, b + 1, *n as i128);
            emit_widen(&mut out, b + 1);
            Some(out)
        },
        (Expr::Variable(name), Expr::Float(x)) => {
            emit_load_name(&mut out, b, name);
            emit_widen(&mut out, b);
            emit_load_text(&mut out, b + 1, x.text.as_str());
            Some(out)
        },
        (Expr::Float(x), Expr::Variable(name)) => {
            emit_load_text(&mut out, b, x.text.as_str());
            emit_load_name(&mut out, b + 1, name);
            emit_widen(&mut out, b + 1);
            Some(out)
        },
        (Expr::UnaryOp(op, inner), right) => {
            if !word_is(op, "-") {
                return None;
            }
            match &**inner {
                Expr::Variable(name) => {
                    emit_load_name(&mut out, b, name);
                    emit_negate(&mut out, b);
                },
                Expr::Float(x) => {
                    let y = x.negate();
                    emit_load_text(&mut out, b, y.text.as_str());
                },
                Expr::Int(n) => {
                    emit_load_int(&mut out, b, -(*n as i128));
                },
                _ => {
                    return None;
                },
            }
            match right {
                Expr::Variable(name) => {
                    emit_load_name(&mut out, b + 1, name);
                },
                Expr::Int(n) => {
                    emit_load_int(&mut out, b + 1, *n as i128);
                },
                Expr::Float(x) => {
                    emit_load_text(&mut out, b + 1, x.text.as_str());
                },
                _ => {
                    return None;
                },
            }
            if on_reals && !real_literal(inner) {
                emit_widen(&mut out, b);
            }
            if on_reals && !real_literal(right) {
                emit_widen(&mut out, b + 1);
            }
            assert(out.deep_view() =~= operand_loads(b as int, left@, right@, on_reals)->0);
            Some(out)
        },
        _ => None,
    }
}

fn generate_boolean(left: &Expr, op: &String, right: &Expr, reg_alloc: &mut RegisterAllocator) -> (out:
    Vec<String>)
    requires
        old(reg_alloc).next() + 6 <= i64::MAX,
    ensures
        out.deep_view() == lines_of(boolean(old(reg_alloc).next(), left@, op@, right@)),
        final(reg_alloc).next() == old(reg_alloc).next() + registers_of(
            boolean(old(reg_alloc).next(), left@, op@, right@),
        ),
{
    let b = reg_alloc.upcoming();
    let on_reals = real_literal(left) || real_literal(right) || word_is(op, "!=");
    match (load_operands(b, left, right, on_reals), relation_code(op, on_reals)) {
        (Some(loads), Some(code)) => {
            take(reg_alloc, 3);
            let mut out = loads;
            emit_three(&mut out, code, b + 2, b, b + 1);
            emit_store_print(&mut out, b + 2);
            assert(out.deep_view() =~= lines_of(boolean(b as int, left@, op@, right@)));
            out
        },
        _ => only_error(),
    }
}

fn emit_store_element(out: &mut Vec<String>, b: i64, list: &String, index: i64)
    requires
        b + 6 <= i64::MAX,
    ensures
        final(out).deep_view() == old(out).deep_view() + store_element(
            b as int,
            list@,
            index as int,
        ),
{
    let ghost before = out.deep_view();
    emit_load_name(out, b + 1, list);
    emit_address(out, b + 2, b + 3, b + 4, b + 2, b + 1, index as i128);
    emit_store_through(out, b + 2, b);
    assert(out.deep_view() =~= before + store_element(b as int, list@, index as int));
}

fn generate_element(list: &String, index: i64, value: &Expr, reg_alloc: &mut RegisterAllocator) -> (out:
    Vec<String>)
    requires
        old(reg_alloc).next() + 6 <= i64::MAX,
    ensures
        out.deep_view() == lines_of(
            assign_element(old(reg_alloc).next(), list@, index as int, value@),
        ),
        final(reg_alloc).next() == old(reg_alloc).next() + registers_of(
            assign_element(old(reg_alloc).next(), list@, index as int, value@),
        ),
{
    proof {
        reveal_with_fuel(tree, 3);
    }
    let b = reg_alloc.upcoming();
    let mut out = no_lines();
    match value {
        Expr::Int(n) => {
            take(reg_alloc, 5);
            emit_load_int(&mut out, b, *n as i128);
            emit_store_element(&mut out, b, list, index);
            out
        },
        Expr::Float(x) => {
            take(reg_alloc, 5);
            emit_load_text(&mut out, b, x.text.as_str());
            emit_store_element(&mut out, b, list, index);
            out
        },
        Expr::ListAccess(source, at) => {
            match &**at {
                Expr::Int(i) => {
                    take(reg_alloc, 6);
                    emit_load_name(&mut out, b, source);
                    emit_address(&mut out, b + 1, b + 2, b + 3, b + 4, b, *i as i128);
                    emit_load_through(&mut out, b + 5, b + 4);
                    emit_load_name(&mut out, b, list);
                    emit_address(&mut out, b + 1, b + 2, b + 3, b + 4, b, index as i128);
                    emit_store_through(&mut out, b + 4, b + 5);
                    assert(out.deep_view() =~= lines_of(
                        assign_element(b as int, list@, index as int, value@),
                    ));
                    out
                },
                _ => only_error(),
            }
        },
        Expr::UnaryOp(op, inner) => {
            if !word_is(op, "-") {
                return only_error();
            }
            match &**inner {
                Expr::Int(n) => {
                    take(reg_alloc, 5);
                    emit_load_int(&mut out, b, -(*n as i128));
                    emit_store_element(&mut out, b, list, index);
                    out
                },
                Expr::Float(x) => {
                    take(reg_alloc, 5);
                    let y = x.negate();
                    emit_load_text(&mut out, b, y.text.as_str());
                    emit_store_element(&mut out, b, list, index);
                    out
                },
                _ => only_error(),
            }
        },
        _ => only_error(),
    }
}

fn generate_assign(name: &String, value: &Expr, reg_alloc: &mut RegisterAllocator) -> (out: Vec<
    String,
>)
    requires
        old(reg_alloc).next() + 6 <= i64::MAX,
    ensures
        out.deep_view() == lines_of(assign(old(reg_alloc).next(), name@, value@)),
        final(reg_alloc).next() == old(reg_alloc).next() + registers_of(
            assign(old(reg_alloc).next(), name@, value@),
        ),
{
    proof {
        reveal_with_fuel(tree, 3);
    }
    let b = reg_alloc.upcoming();
    let mut out = no_lines();
    match value {
        Expr::Int(n) => {
            let r0 = reg_alloc.get_next_reg();
            emit_load_int(&mut out, r0, *n as i128);
            emit_store_name(&mut out, name, r0);
            out
        },
        Expr::Float(x) => {
            let r0 = reg_alloc.get_next_reg();
            emit_load_text(&mut out, r0, x.text.as_str());
            emit_store_name(&mut out, name, r0);
            out
        },
        Expr::Variable(other) => {
            let r0 = reg_alloc.get_next_reg();
            emit_load_name(&mut out, r0, other);
            emit_store_name(&mut out, name, r0);
            out
        },
        Expr::List(elements) => {
            take(reg_alloc, 6);
            emit_load_int(&mut out, b, 0);
            emit_load_name(&mut out, b + 1, name);
            let ghost head = out.deep_view();
            let mut i: usize = 0;
            assert(out.deep_view() =~= head + element_zeros(b as int, 0, 0));
            while i < elements.len()
                invariant
                    i <= elements.len(),
                    b + 6 <= i64::MAX,
                    out.deep_view() == head + element_zeros(b as int, 0, i as int),
                decreases elements.len() - i,
            {
                emit_address(&mut out, b + 2, b + 3, b + 4, b + 5, b + 1, i as i128);
                emit_store_through(&mut out, b + 5, b);
                assert(out.deep_view() =~= head + element_zeros(b as int, 0, i + 1));
                i += 1;
            }
            out
        },
        Expr::ListAccess(list, index) => {
            match &**index {
                Expr::Int(i) => {
                    take(reg_alloc, 5);
                    emit_load_name(&mut out, b, list);
                    emit_address(&mut out, b + 1, b + 2, b + 3, b + 4, b, *i as i128);
                    emit_load_through(&mut out, b, b + 4);
                    emit_store_name(&mut out, name, b);
                    assert(out.deep_view() =~= lines_of(assign(b as int, name@, value@)));
                    out
                },
                _ => only_error(),
            }
        },
        _ => only_error(),
    }
}

/// The lines that print element `index` of the list `list`.
fn generate_element_print(list: &String, index: i64, reg_alloc: &mut RegisterAllocator) -> (out:
    Vec<String>)
    requires
        old(reg_alloc).next() + 6 <= i64::MAX,
    ensures
        out.deep_view() == print_element(old(reg_alloc).next(), list@, index as int).lines,
        final(reg_alloc).next() == old(reg_alloc).next() + 5,
{
    let b = reg_alloc.upcoming();
    take(reg_alloc, 5);
    let mut out = no_lines();
    emit_load_name(&mut out, b, list);
    emit_address(&mut out, b + 1, b + 2, b + 3, b + 4, b, index as i128);
    emit_store_print(&mut out, b + 4);
    out
}

/// The lines of an assignment.
fn generate_assignment(target: &String, value: &Expr, reg_alloc: &mut RegisterAllocator) -> (out:
    Vec<String>)
    requires
        old(reg_alloc).next() + 6 <= i64::MAX,
    ensures
        out.deep_view() == lines_of(assignment(old(reg_alloc).next(), target@, value@)),
        final(reg_alloc).next() == old(reg_alloc).next() + registers_of(
            assignment(old(reg_alloc).next(), target@, value@),
        ),
{
    let t = chars_of(target.as_str());
    let i = find(&t, '[', 0);
    let j = find(&t, ']', 0);
    if i < t.len() && j < t.len() {
        match element_target(&t) {
            Some((list, index)) => generate_element(&list, index, value, reg_alloc),
            None => only_error(),
        }
    } else {
        generate_assign(target, value, reg_alloc)
    }
}

/// The lines of one tree, with scratch registers taken from `reg_alloc`,
/// which counts on from where it stands. No register is taken where the
/// lines are the one line `ERROR`.
#[verifier::rlimit(40)]
pub fn generate_instructions(expr: &Expr, reg_alloc: &mut RegisterAllocator) -> (out: Vec<String>)
    requires
        old(reg_alloc).next() + 6 <= i64::MAX,
    ensures
        out.deep_view() == lines_of(lowering(old(reg_alloc).next(), expr@)),
        final(reg_alloc).next() == old(reg_alloc).next() + registers_of(
            lowering(old(reg_alloc).next(), expr@),
        ),
{
    proof {
        reveal_with_fuel(tree, 2);
    }
    match expr {
        Expr::Assignment(target, value) => generate_assignment(target, value, reg_alloc),
        Expr::Int(n) => {
            let r0 = reg_alloc.get_next_reg();
            let mut out = no_lines();
            emit_load_int(&mut out, r0, *n as i128);
            emit_store_print(&mut out, r0);
            out
        },
        Expr::Float(x) => {
            let r0 = reg_alloc.get_next_reg();
            let mut out = no_lines();
            emit_load_text(&mut out, r0, x.text.as_str());
            emit_store_print(&mut out, r0);
            out
        },
        Expr::BinaryOp(left, op, right) => generate_binary_arithmetic(left, right, op, reg_alloc),
        Expr::Boolean(left, op, right) => generate_boolean(left, op, right, reg_alloc),
        Expr::ListAccess(list, index) => {
            match &**index {
                Expr::Int(i) => generate_element_print(list, *i, reg_alloc),
                _ => only_error(),
            }
        },
        _ => only_error(),
    }
}

/// Lowers one tree to its instruction lines, with scratch registers numbered
/// from zero.
pub fn generate_assembly(expr: &Expr) -> (lines: Vec<String>)
    ensures
        lines.deep_view() == assembly(expr@),
{
    let mut reg_alloc = RegisterAllocator::new();
    generate_instructions(expr, &mut reg_alloc)
}

} // verus!
