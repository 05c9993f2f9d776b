//! What holds of the code generator and the machine together.

use vstd::prelude::*;
use crate::ast::{ExprView, ParseErrorView};
use crate::codegen::{
    assembly,
    binary,
    binary_opcode,
    error_lines,
    lines_of,
    literal_of,
    load_int,
    load_literal,
    lowering,
    registers_of,
    store_name,
    store_print,
    three,
    Literal,
};
use crate::isa::{
    arity,
    at_name,
    immediate,
    lemma_line_words,
    lemma_mnemonics,
    lemma_operand_words,
    line_of,
    mnemonic,
    opcode_named,
    register,
    Arith,
    Opcode,
    };
use crate::pipeline::{listed, listing};
use crate::text::{
    decimal,
    decimal_nat,
    is_digit,
    is_space,
    is_word,
    lemma_decimal_nat_digits,
    lemma_decimal_reads_back,
    words,
    };
use crate::vm::{
    arithmetic,
    byte_of,
    comparison,
    execute,
    fresh,
    holds,
    int_holds,
    stored_word,
    int_result,
    is_instruction,
    load,
    loaded,
    numeric_place,
    perform,
    readable,
    run,
    shown,
    step,
    store,
    with_register,
    with_word,
    word_at,
    Machine,
    Outcome,
    ValueView,
};

verus! {

/// The value that a binary operation on two integers has: the result of
/// arithmetic, which wraps round, or 1 and 0 for a comparison that holds and
/// one that does not.
pub open spec fn evaluated(op: Seq<char>, a: i32, b: i32) -> i32 {
    match binary_opcode(op, false) {
        Some(Opcode::Arith(o, _)) => int_result(o, a, b),
        Some(Opcode::Compare(r, _)) => if int_holds(r, a as int, b as int) {
            1
        } else {
            0
        },
        _ => 0,
    }
}

/// A sequence of which every element passes a filter passes it whole.
pub proof fn lemma_filter_keeps_all<A>(s: Seq<A>, keep: spec_fn(A) -> bool)
    requires
        forall|i: int| 0 <= i < s.len() ==> keep(#[trigger] s[i]),
    ensures
        s.filter(keep) == s,
    decreases s.len(),
{
    reveal(Seq::filter);
    if s.len() > 0 {
        assert forall|i: int| 0 <= i < s.drop_last().len() implies keep(
            #[trigger] s.drop_last()[i],
        ) by {
            assert(s.drop_last()[i] == s[i]);
        }
        lemma_filter_keeps_all(s.drop_last(), keep);
        assert(keep(s.last()));
        assert(s.drop_last().push(s.last()) =~= s);
    }
}

/// A sequence of which no element passes a filter leaves nothing.
pub proof fn lemma_filter_keeps_none<A>(s: Seq<A>, keep: spec_fn(A) -> bool)
    requires
        forall|i: int| 0 <= i < s.len() ==> !keep(#[trigger] s[i]),
    ensures
        s.filter(keep) == Seq::<A>::empty(),
    decreases s.len(),
{
    reveal(Seq::filter);
    if s.len() > 0 {
        assert forall|i: int| 0 <= i < s.drop_last().len() implies !keep(
            #[trigger] s.drop_last()[i],
        ) by {
            assert(s.drop_last()[i] == s[i]);
        }
        lemma_filter_keeps_none(s.drop_last(), keep);
        assert(!keep(s.last()));
    }
}

/// A line written from an opcode and as many operand words as it reads is
/// an instruction, and running it does what the opcode does to the
/// operands.
pub proof fn lemma_line_runs(m: Machine, op: Opcode, args: Seq<Seq<char>>)
    requires
        forall|i: int| 0 <= i < args.len() ==> is_word(#[trigger] args[i]),
        args.len() == arity(op),
    ensures
        is_instruction(line_of(op, args)),
        execute(m, line_of(op, args), None) == perform(m, op, args, None),
{
    lemma_line_words(op, args);
    lemma_mnemonics();
    let ws = words(line_of(op, args));
    assert(ws == seq![mnemonic(op)] + args);
    assert(ws[0] == mnemonic(op));
    assert(ws.skip(1) =~= args);
    assert(opcode_named(ws[0]) == Some(op));
    reveal_strlit("LD");
    reveal_strlit("ST");
    reveal_strlit("ADD.i");
    reveal_strlit("ADD.f");
    reveal_strlit("SUB.i");
    reveal_strlit("SUB.f");
    reveal_strlit("MUL.i");
    reveal_strlit("MUL.f");
    reveal_strlit("DIV.i");
    reveal_strlit("DIV.f");
    reveal_strlit("EQ.i");
    reveal_strlit("EQ.f");
    reveal_strlit("NE.i");
    reveal_strlit("NE.f");
    reveal_strlit("LT.i");
    reveal_strlit("LT.f");
    reveal_strlit("GT.i");
    reveal_strlit("GT.f");
    reveal_strlit("LE.i");
    reveal_strlit("LE.f");
    reveal_strlit("GE.i");
    reveal_strlit("GE.f");
    reveal_strlit("FL.i");
    reveal_strlit("NEG.i");
    reveal_strlit("NEG.f");
    reveal_strlit("print");
    assert(ws[0][0] != '/');
    assert(ws.len() >= 2);
}

/// The numeral of an integer holds no point.
pub proof fn lemma_decimal_has_no_point(n: int)
    ensures
        !decimal(n).contains('.'),
{
    let d = decimal(n);
    if d.contains('.') {
        let i = choose|i: int| 0 <= i < d.len() && d[i] == '.';
        if n < 0 {
            lemma_decimal_nat_digits((-n) as nat);
            if i > 0 {
                assert(d[i] == decimal_nat((-n) as nat)[i - 1]);
                assert(is_digit(decimal_nat((-n) as nat)[i - 1]));
            }
        } else {
            lemma_decimal_nat_digits(n as nat);
            assert(is_digit(d[i]));
        }
    }
}

/// Loading the literal of an integer of 32 bits writes the integer into the
/// register.
pub proof fn lemma_load_int(m: Machine, r: int, n: int)
    requires
        i32::MIN <= n <= i32::MAX,
    ensures
        perform(m, Opcode::Load, seq![register(r), immediate(decimal(n))], None) == (
            with_register(m, register(r), ValueView::Int(n as i32)),
            Outcome::Done,
        ),
{
    lemma_operand_words(n);
    lemma_decimal_has_no_point(n);
    lemma_decimal_reads_back(n);
    let src = immediate(decimal(n));
    assert(src[0] == '#');
    assert(src.skip(1) == decimal(n));
}

/// The names of the first three scratch registers differ.
pub proof fn lemma_registers_differ()
    ensures
        register(0) != register(1),
        register(0) != register(2),
        register(1) != register(2),
{
    assert(decimal(0) == seq!['0']);
    assert(decimal(1) == seq!['1']);
    assert(decimal(2) == seq!['2']);
    assert(register(0)[1] == '0');
    assert(register(1)[1] == '1');
    assert(register(2)[1] == '2');
}

/// The word that names the print log.
pub proof fn lemma_print_word()
    ensures
        at_name("print"@) == "@print"@,
        is_word(at_name("print"@)),
{
    reveal_strlit("print");
    reveal_strlit("@print");
    assert(at_name("print"@) =~= "@print"@);
    let w = at_name("print"@);
    assert forall|i: int| 0 <= i < w.len() implies !is_space(#[trigger] w[i]) by {}
}

/// A line that loads the literal of an integer of 32 bits writes the
/// integer into its register and leaves the rest of the machine as it is.
pub proof fn lemma_step_load(m: Machine, r: int, n: int)
    requires
        m.pc < m.program.len(),
        m.program[m.pc as int] == load_int(r, n),
        i32::MIN <= n <= i32::MAX,
    ensures
        step(m, None) == (
            Machine {
                registers: m.registers.insert(register(r), ValueView::Int(n as i32)),
                pc: m.pc + 1,
                ..m
            },
            Outcome::Done,
        ),
{
    lemma_operand_words(r);
    lemma_operand_words(n);
    let args = seq![register(r), immediate(decimal(n))];
    lemma_line_runs(m, Opcode::Load, args);
    lemma_load_int(m, r, n);
}

/// A line that works on the integers in registers 0 and 1 writes the value
/// of the operation into register 2.
pub proof fn lemma_step_operation(m: Machine, op: Seq<char>, a: i32, b: i32)
    requires
        binary_opcode(op, false) is Some,
        m.pc < m.program.len(),
        m.program[m.pc as int] == three(binary_opcode(op, false)->0, 2, 0, 1),
        m.registers.contains_key(register(0)),
        m.registers.contains_key(register(1)),
        m.registers[register(0)] == ValueView::Int(a),
        m.registers[register(1)] == ValueView::Int(b),
        op == "/"@ ==> b != 0,
    ensures
        step(m, None) == (
            Machine {
                registers: m.registers.insert(
                    register(2),
                    ValueView::Int(evaluated(op, a, b)),
                ),
                pc: m.pc + 1,
                ..m
            },
            Outcome::Done,
        ),
{
    let code = binary_opcode(op, false)->0;
    lemma_operand_words(0);
    lemma_operand_words(1);
    lemma_operand_words(2);
    let args = seq![register(2), register(0), register(1)];
    lemma_line_runs(m, code, args);
    reveal_strlit("/");
    reveal_strlit("+");
    reveal_strlit("-");
    reveal_strlit("*");
    reveal_strlit("==");
    reveal_strlit("!=");
    reveal_strlit("<");
    reveal_strlit(">");
    reveal_strlit("<=");
    reveal_strlit(">=");
    match code {
        Opcode::Arith(o, f) => {
            assert(!f);
            assert(o == Arith::Div ==> op == "/"@);
            assert(perform(m, code, args, None) == arithmetic(
                m,
                o,
                false,
                register(2),
                register(0),
                register(1),
                None,
            ));
        },
        Opcode::Compare(r, f) => {
            assert(!f);
            assert(perform(m, code, args, None) == comparison(
                m,
                r,
                false,
                register(2),
                register(0),
                register(1),
            ));
        },
        _ => {},
    }
}

/// A line that stores a register to the print log puts the register's value
/// at the end of the log.
pub proof fn lemma_step_print(m: Machine, r: int)
    requires
        m.pc < m.program.len(),
        m.program[m.pc as int] == store_print(r),
        m.registers.contains_key(register(r)),
    ensures
        step(m, None) == (
            Machine { output: m.output.push(shown(m.registers[register(r)])), pc: m.pc + 1, ..m },
            Outcome::Done,
        ),
{
    lemma_operand_words(r);
    lemma_print_word();
    let args = seq![at_name("print"@), register(r)];
    lemma_line_runs(m, Opcode::Store, args);
}

/// The four lines of a binary operation on two integer literals: two
/// loads, the operation, and the store to the print log.
pub open spec fn operation_lines(a: i64, op: Seq<char>, b: i64) -> Seq<Seq<char>> {
    seq![
        load_int(0, a as int),
        load_int(1, b as int),
        three(binary_opcode(op, false)->0, 2, 0, 1),
        store_print(2),
    ]
}

/// The lines of a binary operation on two integer literals.
pub proof fn lemma_integer_operation_lines(a: i64, op: Seq<char>, b: i64)
    requires
        binary_opcode(op, false) is Some,
        op == "/"@ ==> b != 0,
    ensures
        assembly(
            ExprView::BinaryOp(Box::new(ExprView::Int(a)), op, Box::new(ExprView::Int(b))),
        ) == operation_lines(a, op, b),
        forall|i: int|
            0 <= i < 4 ==> is_instruction(#[trigger] operation_lines(a, op, b)[i]),
{
    let program = operation_lines(a, op, b);
    assert(literal_of(ExprView::Int(a)) == Some(Literal::Whole(a as int)));
    assert(literal_of(ExprView::Int(b)) == Some(Literal::Whole(b as int)));
    assert(lines_of(binary(0, ExprView::Int(a), op, ExprView::Int(b))) =~= program);
    lemma_operand_words(0);
    lemma_operand_words(1);
    lemma_operand_words(2);
    lemma_operand_words(a as int);
    lemma_operand_words(b as int);
    lemma_print_word();
    let m = fresh(0);
    lemma_line_runs(m, Opcode::Load, seq![register(0), immediate(decimal(a as int))]);
    lemma_line_runs(m, Opcode::Load, seq![register(1), immediate(decimal(b as int))]);
    lemma_line_runs(
        m,
        binary_opcode(op, false)->0,
        seq![register(2), register(0), register(1)],
    );
    lemma_line_runs(m, Opcode::Store, seq![at_name("print"@), register(2)]);
}

/// A binary operation on two integer literals of 32 bits, lowered and run on
/// a fresh machine, prints one line, the value of the operation, and comes
/// to the end of its program. The operator is one of the ten that the code
/// generator knows; a division has a divisor that is not zero.
pub proof fn theorem_integer_operation(a: i64, op: Seq<char>, b: i64, memory: nat)
    requires
        binary_opcode(op, false) is Some,
        i32::MIN <= a <= i32::MAX,
        i32::MIN <= b <= i32::MAX,
        op == "/"@ ==> b != 0,
    ensures
        ({
            let e = ExprView::BinaryOp(
                Box::new(ExprView::Int(a)),
                op,
                Box::new(ExprView::Int(b)),
            );
            let (end, outcome) = run(loaded(fresh(memory), assembly(e)));
            &&& outcome is Halted
            &&& end.output == seq![decimal(evaluated(op, a as i32, b as i32) as int)]
        }),
{
    let e = ExprView::BinaryOp(Box::new(ExprView::Int(a)), op, Box::new(ExprView::Int(b)));
    let program = operation_lines(a, op, b);
    lemma_integer_operation_lines(a, op, b);
    let keep = |l: Seq<char>| is_instruction(l);
    lemma_filter_keeps_all(program, keep);
    let m0 = loaded(fresh(memory), assembly(e));
    assert(m0.program == program);
    lemma_registers_differ();
    lemma_step_load(m0, 0, a as int);
    let m1 = step(m0, None).0;
    lemma_step_load(m1, 1, b as int);
    let m2 = step(m1, None).0;
    lemma_step_operation(m2, op, a as i32, b as i32);
    let m3 = step(m2, None).0;
    lemma_step_print(m3, 2);
    let m4 = step(m3, None).0;
    let value = evaluated(op, a as i32, b as i32);
    assert(m4.output =~= seq![decimal(value as int)]);
    assert(step(m4, None) == (m4, Outcome::Halted));
    assert(run(m4) == (m4, Outcome::Halted));
    assert(run(m3) == run(m4));
    assert(run(m2) == run(m3));
    assert(run(m1) == run(m2));
    assert(run(m0) == run(m1));
}

/// The mark of a line that could not be lowered, and an empty line, are no
/// instructions: the loader leaves them out.
pub proof fn lemma_marks_are_no_instructions()
    ensures
        !is_instruction("ERROR"@),
        !is_instruction(Seq::<char>::empty()),
{
    reveal_strlit("ERROR");
    let s = "ERROR"@;
    assert(words(Seq::<char>::empty()) =~= Seq::<Seq<char>>::empty());
    assert(is_word(s)) by {
        assert forall|i: int| 0 <= i < s.len() implies !is_space(#[trigger] s[i]) by {}
    }
    crate::text::lemma_words_of_join(seq![s]);
    assert(crate::text::join_words(seq![s]) == s);
    assert(words(s) == seq![s]);
}

/// A text of which every line ended in an error gives the machine nothing
/// to run.
pub proof fn theorem_errors_are_not_run(
    results: Seq<Result<ExprView, ParseErrorView>>,
    m: Machine,
)
    requires
        forall|i: int| 0 <= i < results.len() ==> (#[trigger] results[i]) is Err,
    ensures
        loaded(m, listing(results)).program == Seq::<Seq<char>>::empty(),
{
    lemma_marks_are_no_instructions();
    let keep = |l: Seq<char>| is_instruction(l);
    lemma_only_marks(results, results.len());
    let all = listing(results);
    assert forall|i: int| 0 <= i < all.len() implies !keep(#[trigger] all[i]) by {
        if i < listed(results, results.len()).len() {
            assert(all[i] == listed(results, results.len())[i]);
            assert(is_mark(listed(results, results.len())[i]));
        }
    }
    lemma_filter_keeps_none(all, keep);
}

/// Whether a line is the mark of an error, or empty.
pub open spec fn is_mark(l: Seq<char>) -> bool {
    l == "ERROR"@ || l == Seq::<char>::empty()
}

proof fn lemma_only_marks(results: Seq<Result<ExprView, ParseErrorView>>, n: nat)
    requires
        n <= results.len(),
        forall|i: int| 0 <= i < results.len() ==> (#[trigger] results[i]) is Err,
    ensures
        forall|i: int| 0 <= i < listed(results, n).len() ==> is_mark(#[trigger] listed(results, n)[i]),
    decreases n,
{
    if n > 0 {
        lemma_only_marks(results, (n - 1) as nat);
        assert(results[n - 1] is Err);
        let before = listed(results, (n - 1) as nat);
        let now = listed(results, n);
        assert forall|i: int| 0 <= i < now.len() implies is_mark(#[trigger] now[i]) by {
            if i < before.len() {
                assert(now[i] == before[i]);
            }
        }
    }
}

/// A word stored at an address and read from it again is the same word.
pub proof fn lemma_word_read_back(mem: Seq<u8>, a: int, i: i32)
    requires
        0 <= a,
        a + 4 <= mem.len(),
    ensures
        word_at(with_word(mem, a, i), a) == i,
        with_word(mem, a, i).len() == mem.len(),
{
    let u: int = if i < 0 {
        i + 0x1_0000_0000
    } else {
        i as int
    };
    let b0 = u % 0x100;
    let b1 = (u / 0x100) % 0x100;
    let b2 = (u / 0x1_0000) % 0x100;
    let b3 = (u / 0x100_0000) % 0x100;
    assert(u == b0 + 0x100 * b1 + 0x1_0000 * b2 + 0x100_0000 * b3);
    let w = with_word(mem, a, i);
    assert(w[a] == byte_of(i, 0));
    assert(w[a + 1] == byte_of(i, 1));
    assert(w[a + 2] == byte_of(i, 2));
    assert(w[a + 3] == byte_of(i, 3));
    assert(w[a] as int == b0);
    assert(w[a + 1] as int == b1);
    assert(w[a + 2] as int == b2);
    assert(w[a + 3] as int == b3);
}

/// What is stored under a name is what a load from the name reads next:
/// the last store is the one that counts. A real number is read back as the
/// integer that the low 32 bits of its bit pattern are.
pub proof fn theorem_last_store_is_read(m: Machine, name: Seq<char>, source: Seq<char>, target: Seq<char>)
    requires
        name != "print"@,
        store(m, at_name(name), source).1 is Done,
    ensures
        ({
            let after = store(m, at_name(name), source).0;
            load(after, target, at_name(name), None) == (
                with_register(after, target, ValueView::Int(stored_word(m.registers[source]))),
                Outcome::Done,
            )
        }),
{
    reveal_strlit("print");
    reveal_strlit("@print");
    let dst = at_name(name);
    assert(dst[0] == '@');
    assert(dst.skip(1) =~= name);
    assert(dst != "@print"@) by {
        if dst == "@print"@ {
            assert(dst.skip(1) == "@print"@.skip(1));
            assert("@print"@.skip(1) =~= "print"@);
        }
    }
    let v = m.registers[source];
    match numeric_place(name) {
        Some(a) => {
            lemma_word_read_back(m.memory, a, stored_word(v));
        },
        None => {
            if m.bindings.contains_key(name) {
                lemma_word_read_back(m.memory, m.bindings[name] as int, stored_word(v));
            } else {
                let a = m.next_addr as int;
                let cleared = crate::vm::cleared(m.memory, a, a + crate::vm::block_size(v));
                lemma_word_read_back(cleared, a, stored_word(v));
            }
        },
    }
}

/// Whether the names that are bound lie apart: each has four bytes of its
/// own below the next free address.
pub open spec fn apart(m: Machine) -> bool {
    &&& forall|x: Seq<char>|
        m.bindings.contains_key(x) ==> #[trigger] m.bindings[x] + 4 <= m.next_addr
    &&& forall|x: Seq<char>, y: Seq<char>|
        m.bindings.contains_key(x) && m.bindings.contains_key(y) && x != y ==> (
        #[trigger] m.bindings[x]) + 4 <= (#[trigger] m.bindings[y]) || m.bindings[y] + 4
            <= m.bindings[x]
}

/// Whether the machine `after` has kept what `before` had bound: every name
/// has its address still, and the next free address has not gone back.
pub open spec fn keeps_bindings(before: Machine, after: Machine) -> bool {
    &&& before.next_addr <= after.next_addr
    &&& forall|x: Seq<char>|
        before.bindings.contains_key(x) ==> after.bindings.contains_key(x) && (
        #[trigger] after.bindings[x]) == before.bindings[x]
}

/// A store binds a new name behind every name bound before it.
pub proof fn lemma_store_binds_apart(m: Machine, dst: Seq<char>, src: Seq<char>)
    requires
        apart(m),
    ensures
        apart(store(m, dst, src).0),
        keeps_bindings(m, store(m, dst, src).0),
{
    let after = store(m, dst, src).0;
    if m.registers.contains_key(src) && dst != "@print"@ && dst.len() > 0 && dst[0] == '@' {
        let name = dst.skip(1);
        let v = m.registers[src];
        if numeric_place(name) is None && !m.bindings.contains_key(name) {
            let a = m.next_addr as int;
            let size = crate::vm::block_size(v);
            assert(size >= 4);
            if !(a + size > usize::MAX || !readable(m, a)) {
                assert(after.bindings == m.bindings.insert(name, a as usize));
                assert(after.next_addr == a + size);
                assert forall|x: Seq<char>, y: Seq<char>|
                    after.bindings.contains_key(x) && after.bindings.contains_key(y) && x
                        != y implies (#[trigger] after.bindings[x]) + 4 <= (
                #[trigger] after.bindings[y]) || after.bindings[y] + 4
                    <= after.bindings[x] by {
                    if x != name {
                        assert(m.bindings[x] + 4 <= m.next_addr);
                    }
                    if y != name {
                        assert(m.bindings[y] + 4 <= m.next_addr);
                    }
                }
            }
        }
    }
}

/// Addresses are not used twice: whatever the machine runs, the names that
/// are bound keep their addresses, and a name that is bound anew gets four
/// bytes or more that no other name has.
pub proof fn theorem_addresses_are_not_reused(m: Machine, supplied: Option<crate::number::RealView>)
    requires
        apart(m),
    ensures
        apart(step(m, supplied).0),
        keeps_bindings(m, step(m, supplied).0),
{
    if m.pc < m.program.len() {
        let line = m.program[m.pc as int];
        let ws = words(line);
        if ws.len() > 0 && opcode_named(ws[0]) is Some && ws.len() >= 1 + arity(
            opcode_named(ws[0])->0,
        ) {
            let op = opcode_named(ws[0])->0;
            let args = ws.skip(1);
            match op {
                Opcode::Store => {
                    lemma_store_binds_apart(m, args[0], args[1]);
                },
                _ => {
                    assert(perform(m, op, args, supplied).0.bindings == m.bindings);
                    assert(perform(m, op, args, supplied).0.next_addr == m.next_addr);
                },
            }
        }
    }
}

/// A fresh machine has bound nothing, and loading a program binds nothing.
pub proof fn lemma_fresh_is_apart(memory: nat, lines: Seq<Seq<char>>)
    ensures
        apart(fresh(memory)),
        apart(loaded(fresh(memory), lines)),
{
}

/// A line written from an opcode and operand words is not the mark of an
/// error.
pub proof fn lemma_line_is_no_mark(op: Opcode, args: Seq<Seq<char>>)
    requires
        args.len() >= 1,
    ensures
        line_of(op, args) != "ERROR"@,
{
    lemma_mnemonics();
    reveal_strlit("ERROR");
    let ws = seq![mnemonic(op)] + args;
    let m = mnemonic(op);
    assert(ws[0] == m);
    let line = line_of(op, args);
    assert(line == m + seq![' '] + crate::text::join_words(ws.skip(1)));
    assert(line[m.len() as int] == ' ');
    assert(is_word(m));
}

/// Whether no line of a listing is the mark of an error.
pub open spec fn unmarked(lines: Seq<Seq<char>>) -> bool {
    forall|i: int| 0 <= i < lines.len() ==> #[trigger] lines[i] != "ERROR"@
}

proof fn lemma_lines_are_no_marks()
    ensures
        forall|r: int, t: Seq<char>| #[trigger] load_literal(r, t) != "ERROR"@,
        forall|r: int, name: Seq<char>| #[trigger] crate::codegen::load_name(r, name) != "ERROR"@,
        forall|r: int, q: int| #[trigger] crate::codegen::load_through(r, q) != "ERROR"@,
        forall|name: Seq<char>, r: int| #[trigger] store_name(name, r) != "ERROR"@,
        forall|a: int, r: int| #[trigger] crate::codegen::store_through(a, r) != "ERROR"@,
        forall|op: Opcode, d: int, a: int, b: int| #[trigger] three(op, d, a, b) != "ERROR"@,
        forall|r: int| #[trigger] crate::codegen::widen(r) != "ERROR"@,
        forall|r: int| #[trigger] crate::codegen::negate_int(r) != "ERROR"@,
{
    assert forall|r: int, t: Seq<char>| #[trigger] load_literal(r, t) != "ERROR"@ by {
        lemma_line_is_no_mark(Opcode::Load, seq![register(r), immediate(t)]);
    }
    assert forall|r: int, name: Seq<char>| #[trigger]
        crate::codegen::load_name(r, name) != "ERROR"@ by {
        lemma_line_is_no_mark(Opcode::Load, seq![register(r), at_name(name)]);
    }
    assert forall|r: int, q: int| #[trigger] crate::codegen::load_through(r, q) != "ERROR"@ by {
        lemma_line_is_no_mark(Opcode::Load, seq![register(r), register(q)]);
    }
    assert forall|name: Seq<char>, r: int| #[trigger] store_name(name, r) != "ERROR"@ by {
        lemma_line_is_no_mark(Opcode::Store, seq![at_name(name), register(r)]);
    }
    assert forall|a: int, r: int| #[trigger] crate::codegen::store_through(a, r) != "ERROR"@ by {
        lemma_line_is_no_mark(Opcode::Store, seq![register(a), register(r)]);
    }
    assert forall|op: Opcode, d: int, a: int, b: int| #[trigger]
        three(op, d, a, b) != "ERROR"@ by {
        lemma_line_is_no_mark(op, seq![register(d), register(a), register(b)]);
    }
    assert forall|r: int| #[trigger] crate::codegen::widen(r) != "ERROR"@ by {
        lemma_line_is_no_mark(Opcode::ToReal, seq![register(r), register(r)]);
    }
    assert forall|r: int| #[trigger] crate::codegen::negate_int(r) != "ERROR"@ by {
        lemma_line_is_no_mark(Opcode::Negate(false), seq![register(r), register(r)]);
    }
}

proof fn lemma_element_zeros_unmarked(b: int, from: int, to: int)
    ensures
        unmarked(crate::codegen::element_zeros(b, from, to)),
    decreases to - from,
{
    lemma_lines_are_no_marks();
    if from < to {
        lemma_element_zeros_unmarked(b, from, to - 1);
        let before = crate::codegen::element_zeros(b, from, to - 1);
        let now = crate::codegen::element_zeros(b, from, to);
        assert forall|i: int| 0 <= i < now.len() implies #[trigger] now[i] != "ERROR"@ by {
            if i < before.len() {
                assert(now[i] == before[i]);
            }
        }
    }
}

proof fn lemma_binary_unmarked(b: int, l: ExprView, op: Seq<char>, r: ExprView)
    ensures
        binary(b, l, op, r) is Some ==> unmarked(binary(b, l, op, r)->0.lines),
{
    lemma_lines_are_no_marks();
}

proof fn lemma_boolean_unmarked(b: int, l: ExprView, op: Seq<char>, r: ExprView)
    ensures
        crate::codegen::boolean(b, l, op, r) is Some ==> unmarked(
            crate::codegen::boolean(b, l, op, r)->0.lines,
        ),
{
    lemma_lines_are_no_marks();
}

proof fn lemma_assign_unmarked(b: int, name: Seq<char>, value: ExprView)
    ensures
        crate::codegen::assign(b, name, value) is Some ==> unmarked(
            crate::codegen::assign(b, name, value)->0.lines,
        ),
{
    lemma_lines_are_no_marks();
    match value {
        ExprView::List(elements) => {
            lemma_element_zeros_unmarked(b, 0, elements.len() as int);
            let zeros = crate::codegen::element_zeros(b, 0, elements.len() as int);
            let all = crate::codegen::assign(b, name, value)->0.lines;
            assert forall|i: int| 0 <= i < all.len() implies #[trigger] all[i] != "ERROR"@ by {
                if i >= 2 {
                    assert(all[i] == zeros[i - 2]);
                }
            }
        },
        _ => {},
    }
}

proof fn lemma_assign_element_unmarked(b: int, list: Seq<char>, index: int, value: ExprView)
    ensures
        crate::codegen::assign_element(b, list, index, value) is Some ==> unmarked(
            crate::codegen::assign_element(b, list, index, value)->0.lines,
        ),
{
    lemma_lines_are_no_marks();
}

/// The mark of an error stands alone: whatever the first free register is,
/// the lines of a tree either are the one line `ERROR`, and then no
/// register is taken, or hold no such line.
pub proof fn theorem_error_stands_alone(b: int, e: ExprView)
    ensures
        lowering(b, e) is None ==> lines_of(lowering(b, e)) == error_lines() && registers_of(
            lowering(b, e),
        ) == 0,
        lowering(b, e) is Some ==> unmarked(lines_of(lowering(b, e))),
        assembly(e) == error_lines() || unmarked(assembly(e)),
{
    lemma_lines_are_no_marks();
    lemma_lowering_unmarked(b, e);
    lemma_lowering_unmarked(0, e);
}

/// A tree takes six scratch registers at most, and one at least where it is
/// lowered.
pub proof fn theorem_registers_taken(b: int, e: ExprView)
    ensures
        0 <= registers_of(lowering(b, e)) <= 6,
        lowering(b, e) is Some ==> 1 <= registers_of(lowering(b, e)),
{
}

proof fn lemma_lowering_unmarked(b: int, e: ExprView)
    ensures
        lowering(b, e) is Some ==> unmarked(lowering(b, e)->0.lines),
{
    lemma_lines_are_no_marks();
    match e {
        ExprView::Assignment(target, value) => {
            lemma_assign_unmarked(b, target, *value);
            if crate::codegen::element_index(target) is Some {
                lemma_assign_element_unmarked(
                    b,
                    crate::codegen::element_name(target),
                    crate::codegen::element_index(target)->0 as int,
                    *value,
                );
            }
        },
        ExprView::BinaryOp(l, op, r) => {
            lemma_binary_unmarked(b, *l, op, *r);
        },
        ExprView::Boolean(l, op, r) => {
            lemma_boolean_unmarked(b, *l, op, *r);
        },
        _ => {},
    }
}

} // verus!
