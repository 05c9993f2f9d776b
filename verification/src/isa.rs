//! The instruction set that the code generator writes and the machine runs.
//!
//! A program is text: one instruction per line, an opcode word followed by
//! its operand words. Inside the library an instruction is an `Opcode` and
//! its operand words; `line_of` writes one out and `decoded` reads one back.

use vstd::prelude::*;
use crate::text::{
    decimal,
    is_space,
    is_word,
    join_words,
    lemma_decimal_reads_back,
    lemma_words_of_join,
    push_all,
    push_decimal_i128,
    push_decimal_i64,
    push_str,
    string_of,
    words,
};

verus! {

/// The operations of arithmetic.
#[derive(Debug, Clone, Copy, PartialEq, Eq, Structural)]
pub enum Arith {
    Add,
    Sub,
    Mul,
    Div,
}

/// The comparisons.
#[derive(Debug, Clone, Copy, PartialEq, Eq, Structural)]
pub enum Relation {
    Eq,
    Ne,
    Lt,
    Gt,
    Le,
    Ge,
}

/// What an instruction does. The flag of `Arith`, `Compare` and `Negate` says
/// whether the instruction works on real numbers (suffix `.f`) or on
/// integers (suffix `.i`).
#[derive(Debug, Clone, Copy, PartialEq, Eq, Structural)]
pub enum Opcode {
    Load,
    Store,
    Arith(Arith, bool),
    Compare(Relation, bool),
    ToReal,
    Negate(bool),
    Print,
}

/// The opcode word of an instruction.
pub open spec fn mnemonic(op: Opcode) -> Seq<char> {
    match op {
        Opcode::Load => "LD"@,
        Opcode::Store => "ST"@,
        Opcode::Arith(Arith::Add, false) => "ADD.i"@,
        Opcode::Arith(Arith::Add, true) => "ADD.f"@,
        Opcode::Arith(Arith::Sub, false) => "SUB.i"@,
        Opcode::Arith(Arith::Sub, true) => "SUB.f"@,
        Opcode::Arith(Arith::Mul, false) => "MUL.i"@,
        Opcode::Arith(Arith::Mul, true) => "MUL.f"@,
        Opcode::Arith(Arith::Div, false) => "DIV.i"@,
        Opcode::Arith(Arith::Div, true) => "DIV.f"@,
        Opcode::Compare(Relation::Eq, false) => "EQ.i"@,
        Opcode::Compare(Relation::Eq, true) => "EQ.f"@,
        Opcode::Compare(Relation::Ne, false) => "NE.i"@,
        Opcode::Compare(Relation::Ne, true) => "NE.f"@,
        Opcode::Compare(Relation::Lt, false) => "LT.i"@,
        Opcode::Compare(Relation::Lt, true) => "LT.f"@,
        Opcode::Compare(Relation::Gt, false) => "GT.i"@,
        Opcode::Compare(Relation::Gt, true) => "GT.f"@,
        Opcode::Compare(Relation::Le, false) => "LE.i"@,
        Opcode::Compare(Relation::Le, true) => "LE.f"@,
        Opcode::Compare(Relation::Ge, false) => "GE.i"@,
        Opcode::Compare(Relation::Ge, true) => "GE.f"@,
        Opcode::ToReal => "FL.i"@,
        Opcode::Negate(false) => "NEG.i"@,
        Opcode::Negate(true) => "NEG.f"@,
        Opcode::Print => "print"@,
    }
}

/// The opcode that a word names, if it names one.
pub open spec fn opcode_named(w: Seq<char>) -> Option<Opcode> {
    if w == "LD"@ {
        Some(Opcode::Load)
    } else if w == "ST"@ {
        Some(Opcode::Store)
    } else if w == "ADD.i"@ {
        Some(Opcode::Arith(Arith::Add, false))
    } else if w == "ADD.f"@ {
        Some(Opcode::Arith(Arith::Add, true))
    } else if w == "SUB.i"@ {
        Some(Opcode::Arith(Arith::Sub, false))
    } else if w == "SUB.f"@ {
        Some(Opcode::Arith(Arith::Sub, true))
    } else if w == "MUL.i"@ {
        Some(Opcode::Arith(Arith::Mul, false))
    } else if w == "MUL.f"@ {
        Some(Opcode::Arith(Arith::Mul, true))
    } else if w == "DIV.i"@ {
        Some(Opcode::Arith(Arith::Div, false))
    } else if w == "DIV.f"@ {
        Some(Opcode::Arith(Arith::Div, true))
    } else if w == "EQ.i"@ {
        Some(Opcode::Compare(Relation::Eq, false))
    } else if w == "EQ.f"@ {
        Some(Opcode::Compare(Relation::Eq, true))
    } else if w == "NE.i"@ {
        Some(Opcode::Compare(Relation::Ne, false))
    } else if w == "NE.f"@ {
        Some(Opcode::Compare(Relation::Ne, true))
    } else if w == "LT.i"@ {
        Some(Opcode::Compare(Relation::Lt, false))
    } else if w == "LT.f"@ {
        Some(Opcode::Compare(Relation::Lt, true))
    } else if w == "GT.i"@ {
        Some(Opcode::Compare(Relation::Gt, false))
    } else if w == "GT.f"@ {
        Some(Opcode::Compare(Relation::Gt, true))
    } else if w == "LE.i"@ {
        Some(Opcode::Compare(Relation::Le, false))
    } else if w == "LE.f"@ {
        Some(Opcode::Compare(Relation::Le, true))
    } else if w == "GE.i"@ {
        Some(Opcode::Compare(Relation::Ge, false))
    } else if w == "GE.f"@ {
        Some(Opcode::Compare(Relation::Ge, true))
    } else if w == "FL.i"@ {
        Some(Opcode::ToReal)
    } else if w == "NEG.i"@ {
        Some(Opcode::Negate(false))
    } else if w == "NEG.f"@ {
        Some(Opcode::Negate(true))
    } else if w == "print"@ {
        Some(Opcode::Print)
    } else {
        None
    }
}

/// How many operand words an instruction reads.
pub open spec fn arity(op: Opcode) -> nat {
    match op {
        Opcode::Load => 2,
        Opcode::Store => 2,
        Opcode::Arith(_, _) => 3,
        Opcode::Compare(_, _) => 3,
        Opcode::ToReal => 2,
        Opcode::Negate(_) => 2,
        Opcode::Print => 1,
    }
}

/// The line of an instruction: its opcode word and its operand words with
/// one blank between two words.
pub open spec fn line_of(op: Opcode, args: Seq<Seq<char>>) -> Seq<char> {
    join_words(seq![mnemonic(op)] + args)
}

/// The name of the scratch register with the given number.
pub open spec fn register(n: int) -> Seq<char> {
    seq!['R'] + decimal(n)
}

/// The operand word of a literal value.
pub open spec fn immediate(t: Seq<char>) -> Seq<char> {
    seq!['#'] + t
}

/// The operand word of a named place in memory.
pub open spec fn at_name(name: Seq<char>) -> Seq<char> {
    seq!['@'] + name
}

/// Every opcode word names its own opcode, and is a word.
pub proof fn lemma_mnemonics()
    ensures
        forall|op: Opcode| #[trigger] opcode_named(mnemonic(op)) == Some(op),
        forall|op: Opcode| is_word(#[trigger] mnemonic(op)),
{
    reveal_strlit("LD");
    reveal_strlit("ST");
    reveal_strlit("ADD.i");
    reveal_strlit("ADD.f");
    reveal_strlit("SUB.i");
    reveal_strlit("SUB.f");
    reveal_strlit("MUL.i");
    reveal_strlit("MUL.f");
    reveal_strlit("DIV.i");
    reveal_strlit("DIV.f");
    reveal_strlit("EQ.i");
    reveal_strlit("EQ.f");
    reveal_strlit("NE.i");
    reveal_strlit("NE.f");
    reveal_strlit("LT.i");
    reveal_strlit("LT.f");
    reveal_strlit("GT.i");
    reveal_strlit("GT.f");
    reveal_strlit("LE.i");
    reveal_strlit("LE.f");
    reveal_strlit("GE.i");
    reveal_strlit("GE.f");
    reveal_strlit("FL.i");
    reveal_strlit("NEG.i");
    reveal_strlit("NEG.f");
    reveal_strlit("print");
    assert forall|op: Opcode| #[trigger] opcode_named(mnemonic(op)) == Some(op) by {
        let w = mnemonic(op);
        match op {
            Opcode::Load => {},
            Opcode::Store => {
                assert(w[0] == 'S');
            },
            Opcode::Arith(a, r) => {
                assert(w.len() == 5);
                assert(w[0] == 'A' || w[0] == 'S' || w[0] == 'M' || w[0] == 'D');
                assert(w[4] == 'i' || w[4] == 'f');
            },
            Opcode::Compare(c, r) => {
                assert(w.len() == 4);
                assert(w[0] == 'E' || w[0] == 'N' || w[0] == 'L' || w[0] == 'G');
                assert(w[1] == 'Q' || w[1] == 'E' || w[1] == 'T');
                assert(w[3] == 'i' || w[3] == 'f');
            },
            Opcode::ToReal => {
                assert(w[0] == 'F');
            },
            Opcode::Negate(r) => {
                assert(w[1] == 'E' && w.len() == 5);
                assert(w[4] == 'i' || w[4] == 'f');
            },
            Opcode::Print => {
                assert(w[0] == 'p');
            },
        }
    }
    assert forall|op: Opcode| is_word(#[trigger] mnemonic(op)) by {
        let w = mnemonic(op);
        assert(w.len() >= 2);
        assert forall|i: int| 0 <= i < w.len() implies !is_space(#[trigger] w[i]) by {}
    }
}

/// A line written by `line_of` falls back into the words it was written
/// from.
pub proof fn lemma_line_words(op: Opcode, args: Seq<Seq<char>>)
    requires
        forall|i: int| 0 <= i < args.len() ==> is_word(#[trigger] args[i]),
    ensures
        words(line_of(op, args)) == seq![mnemonic(op)] + args,
{
    lemma_mnemonics();
    let ws = seq![mnemonic(op)] + args;
    assert forall|i: int| 0 <= i < ws.len() implies is_word(#[trigger] ws[i]) by {
        if i > 0 {
            assert(ws[i] == args[i - 1]);
        }
    }
    lemma_words_of_join(ws);
}

/// The name of a scratch register and the word of an integer literal are
/// words.
pub proof fn lemma_operand_words(n: int)
    ensures
        is_word(register(n)),
        is_word(immediate(decimal(n))),
        register(n)[0] == 'R',
        immediate(decimal(n))[0] == '#',
        immediate(decimal(n)).skip(1) == decimal(n),
{
    lemma_decimal_reads_back(n);
    let d = decimal(n);
    let r = register(n);
    assert forall|i: int| 0 <= i < r.len() implies !is_space(#[trigger] r[i]) by {
        if i > 0 {
            assert(r[i] == d[i - 1]);
        }
    }
    let m = immediate(d);
    assert forall|i: int| 0 <= i < m.len() implies !is_space(#[trigger] m[i]) by {
        if i > 0 {
            assert(m[i] == d[i - 1]);
        }
    }
    assert(m.skip(1) == d);
}

/// Whether the word is the given literal.
pub fn word_is(w: &String, lit: &str) -> (r: bool)
    ensures
        r == (w@ == lit@),
{
    let l = String::from_str(lit);
    *w == l
}

/// The opcode that the word names.
pub fn opcode_of(w: &String) -> (r: Option<Opcode>)
    ensures
        r == opcode_named(w@),
{
    if word_is(w, "LD") {
        Some(Opcode::Load)
    } else if word_is(w, "ST") {
        Some(Opcode::Store)
    } else if word_is(w, "ADD.i") {
        Some(Opcode::Arith(Arith::Add, false))
    } else if word_is(w, "ADD.f") {
        Some(Opcode::Arith(Arith::Add, true))
    } else if word_is(w, "SUB.i") {
        Some(Opcode::Arith(Arith::Sub, false))
    } else if word_is(w, "SUB.f") {
        Some(Opcode::Arith(Arith::Sub, true))
    } else if word_is(w, "MUL.i") {
        Some(Opcode::Arith(Arith::Mul, false))
    } else if word_is(w, "MUL.f") {
        Some(Opcode::Arith(Arith::Mul, true))
    } else if word_is(w, "DIV.i") {
        Some(Opcode::Arith(Arith::Div, false))
    } else if word_is(w, "DIV.f") {
        Some(Opcode::Arith(Arith::Div, true))
    } else if word_is(w, "EQ.i") {
        Some(Opcode::Compare(Relation::Eq, false))
    } else if word_is(w, "EQ.f") {
        Some(Opcode::Compare(Relation::Eq, true))
    } else if word_is(w, "NE.i") {
        Some(Opcode::Compare(Relation::Ne, false))
    } else if word_is(w, "NE.f") {
        Some(Opcode::Compare(Relation::Ne, true))
    } else if word_is(w, "LT.i") {
        Some(Opcode::Compare(Relation::Lt, false))
    } else if word_is(w, "LT.f") {
        Some(Opcode::Compare(Relation::Lt, true))
    } else if word_is(w, "GT.i") {
        Some(Opcode::Compare(Relation::Gt, false))
    } else if word_is(w, "GT.f") {
        Some(Opcode::Compare(Relation::Gt, true))
    } else if word_is(w, "LE.i") {
        Some(Opcode::Compare(Relation::Le, false))
    } else if word_is(w, "LE.f") {
        Some(Opcode::Compare(Relation::Le, true))
    } else if word_is(w, "GE.i") {
        Some(Opcode::Compare(Relation::Ge, false))
    } else if word_is(w, "GE.f") {
        Some(Opcode::Compare(Relation::Ge, true))
    } else if word_is(w, "FL.i") {
        Some(Opcode::ToReal)
    } else if word_is(w, "NEG.i") {
        Some(Opcode::Negate(false))
    } else if word_is(w, "NEG.f") {
        Some(Opcode::Negate(true))
    } else if word_is(w, "print") {
        Some(Opcode::Print)
    } else {
        None
    }
}

/// The opcode word of an instruction.
pub fn mnemonic_of(op: Opcode) -> (r: &'static str)
    ensures
        r@ == mnemonic(op),
{
    match op {
        Opcode::Load => "LD",
        Opcode::Store => "ST",
        Opcode::Arith(Arith::Add, false) => "ADD.i",
        Opcode::Arith(Arith::Add, true) => "ADD.f",
        Opcode::Arith(Arith::Sub, false) => "SUB.i",
        Opcode::Arith(Arith::Sub, true) => "SUB.f",
        Opcode::Arith(Arith::Mul, false) => "MUL.i",
        Opcode::Arith(Arith::Mul, true) => "MUL.f",
        Opcode::Arith(Arith::Div, false) => "DIV.i",
        Opcode::Arith(Arith::Div, true) => "DIV.f",
        Opcode::Compare(Relation::Eq, false) => "EQ.i",
        Opcode::Compare(Relation::Eq, true) => "EQ.f",
        Opcode::Compare(Relation::Ne, false) => "NE.i",
        Opcode::Compare(Relation::Ne, true) => "NE.f",
        Opcode::Compare(Relation::Lt, false) => "LT.i",
        Opcode::Compare(Relation::Lt, true) => "LT.f",
        Opcode::Compare(Relation::Gt, false) => "GT.i",
        Opcode::Compare(Relation::Gt, true) => "GT.f",
        Opcode::Compare(Relation::Le, false) => "LE.i",
        Opcode::Compare(Relation::Le, true) => "LE.f",
        Opcode::Compare(Relation::Ge, false) => "GE.i",
        Opcode::Compare(Relation::Ge, true) => "GE.f",
        Opcode::ToReal => "FL.i",
        Opcode::Negate(false) => "NEG.i",
        Opcode::Negate(true) => "NEG.f",
        Opcode::Print => "print",
    }
}

/// The name of the scratch register with the given number.
pub fn register_name(n: i64) -> (r: Vec<char>)
    ensures
        r@ == register(n as int),
{
    let mut r: Vec<char> = Vec::new();
    r.push('R');
    push_decimal_i64(&mut r, n);
    r
}

/// The operand word of an integer literal.
pub fn immediate_int(n: i128) -> (r: Vec<char>)
    requires
        -0x8000_0000_0000_0000_0000 <= n <= 0x8000_0000_0000_0000_0000,
    ensures
        r@ == immediate(decimal(n as int)),
{
    let mut r: Vec<char> = Vec::new();
    r.push('#');
    push_decimal_i128(&mut r, n);
    r
}

/// The operand word of a literal given by its text.
pub fn immediate_text(t: &str) -> (r: Vec<char>)
    ensures
        r@ == immediate(t@),
{
    let mut r: Vec<char> = Vec::new();
    r.push('#');
    push_str(&mut r, t);
    r
}

/// The operand word of a named place in memory.
pub fn at_word(name: &str) -> (r: Vec<char>)
    ensures
        r@ == at_name(name@),
{
    let mut r: Vec<char> = Vec::new();
    r.push('@');
    push_str(&mut r, name);
    r
}

/// The line of an instruction with two operands.
pub fn line2(op: Opcode, a: &Vec<char>, b: &Vec<char>) -> (r: String)
    ensures
        r@ == line_of(op, seq![a@, b@]),
{
    let mut v: Vec<char> = Vec::new();
    push_str(&mut v, mnemonic_of(op));
    v.push(' ');
    push_all(&mut v, a);
    v.push(' ');
    push_all(&mut v, b);
    proof {
        let ws = seq![mnemonic(op)] + seq![a@, b@];
        let w1 = ws.skip(1);
        assert(w1 == seq![a@, b@]);
        assert(w1.skip(1) == seq![b@]);
        assert(join_words(w1.skip(1)) == b@);
        assert(join_words(w1) == a@ + seq![' '] + b@);
        assert(v@ == mnemonic(op) + seq![' '] + (a@ + seq![' '] + b@));
    }
    string_of(&v)
}

/// The line of an instruction with three operands.
pub fn line3(op: Opcode, a: &Vec<char>, b: &Vec<char>, c: &Vec<char>) -> (r: String)
    ensures
        r@ == line_of(op, seq![a@, b@, c@]),
{
    let mut v: Vec<char> = Vec::new();
    push_str(&mut v, mnemonic_of(op));
    v.push(' ');
    push_all(&mut v, a);
    v.push(' ');
    push_all(&mut v, b);
    v.push(' ');
    push_all(&mut v, c);
    proof {
        let ws = seq![mnemonic(op)] + seq![a@, b@, c@];
        let w1 = ws.skip(1);
        assert(w1 == seq![a@, b@, c@]);
        let w2 = w1.skip(1);
        assert(w2 == seq![b@, c@]);
        assert(w2.skip(1) == seq![c@]);
        assert(join_words(w2.skip(1)) == c@);
        assert(join_words(w2) == b@ + seq![' '] + c@);
        assert(join_words(w1) == a@ + seq![' '] + (b@ + seq![' '] + c@));
        assert(v@ == mnemonic(op) + seq![' '] + (a@ + seq![' '] + (b@ + seq![' '] + c@)));
    }
    string_of(&v)
}

} // verus!
