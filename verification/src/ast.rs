//! The syntax tree that the parser builds and the code generator lowers, and
//! the errors that a line of source can end in.

use vstd::prelude::*;
use crate::number::{Real, RealView};
use crate::text::{copy_of, decimal, decimal_nat, push_decimal_i64, push_decimal_u64, push_str, string_of};

verus! {

/// An expression or statement of one source line.
///
/// The elements of a `List` are the binary64 bit patterns of its numbers.
#[derive(Debug)]
pub enum Expr {
    Int(i64),
    Float(Real),
    Variable(String),
    BinaryOp(Box<Expr>, String, Box<Expr>),
    Assignment(String, Box<Expr>),
    Boolean(Box<Expr>, String, Box<Expr>),
    List(Vec<u64>),
    ListAccess(String, Box<Expr>),
    UnaryOp(String, Box<Expr>),
}

/// A tree with its texts as sequences of characters.
pub enum ExprView {
    Int(i64),
    Float(RealView),
    Variable(Seq<char>),
    BinaryOp(Box<ExprView>, Seq<char>, Box<ExprView>),
    Assignment(Seq<char>, Box<ExprView>),
    Boolean(Box<ExprView>, Seq<char>, Box<ExprView>),
    List(Seq<u64>),
    ListAccess(Seq<char>, Box<ExprView>),
    UnaryOp(Seq<char>, Box<ExprView>),
}

/// The tree as a value of mathematics: its texts as sequences of characters.
pub open spec fn tree(e: Expr) -> ExprView
    decreases e,
{
    match e {
        Expr::Int(n) => ExprView::Int(n),
        Expr::Float(x) => ExprView::Float(x@),
        Expr::Variable(name) => ExprView::Variable(name@),
        Expr::BinaryOp(l, op, r) => ExprView::BinaryOp(
            Box::new(tree(*l)),
            op@,
            Box::new(tree(*r)),
        ),
        Expr::Assignment(name, value) => ExprView::Assignment(name@, Box::new(tree(*value))),
        Expr::Boolean(l, op, r) => ExprView::Boolean(Box::new(tree(*l)), op@, Box::new(tree(*r))),
        Expr::List(elements) => ExprView::List(elements@),
        Expr::ListAccess(name, index) => ExprView::ListAccess(name@, Box::new(tree(*index))),
        Expr::UnaryOp(op, inner) => ExprView::UnaryOp(op@, Box::new(tree(*inner))),
    }
}

impl View for Expr {
    type V = ExprView;

    open spec fn view(&self) -> ExprView {
        tree(*self)
    }
}

/// A place in the source text, counted from one.
#[derive(Debug, Clone, Copy, PartialEq, Eq, Structural)]
pub struct Position {
    pub line: usize,
    pub column: usize,
}

/// Why a line could not be parsed.
#[derive(Debug, Clone)]
pub enum ParseError {
    SyntaxError(Position),
    UndefinedVariable(String, Position),
    InvalidAtom(Position),
    IndexOutOfRange(Position, usize),
    DivisionByZero(Position),
    MissingIndex(Position),
    TokenizeError,
}

/// An error with its texts as sequences of characters.
pub enum ParseErrorView {
    SyntaxError(Position),
    UndefinedVariable(Seq<char>, Position),
    InvalidAtom(Position),
    IndexOutOfRange(Position, usize),
    DivisionByZero(Position),
    MissingIndex(Position),
    TokenizeError,
}

impl View for ParseError {
    type V = ParseErrorView;

    open spec fn view(&self) -> ParseErrorView {
        match self {
            ParseError::SyntaxError(p) => ParseErrorView::SyntaxError(*p),
            ParseError::UndefinedVariable(name, p) => ParseErrorView::UndefinedVariable(name@, *p),
            ParseError::InvalidAtom(p) => ParseErrorView::InvalidAtom(*p),
            ParseError::IndexOutOfRange(p, i) => ParseErrorView::IndexOutOfRange(*p, *i),
            ParseError::DivisionByZero(p) => ParseErrorView::DivisionByZero(*p),
            ParseError::MissingIndex(p) => ParseErrorView::MissingIndex(*p),
            ParseError::TokenizeError => ParseErrorView::TokenizeError,
        }
    }
}

/// The rendering of a parsed line, or the error it ended in.
#[derive(Debug, Clone)]
pub enum ParseResult {
    Success(String),
    Error(ParseError),
}

/// The rendering of a tree in brackets. Every node but a literal and a
/// variable is put in round brackets; a list shows its length only.
pub open spec fn rendered(e: ExprView) -> Seq<char>
    decreases e,
{
    match e {
        ExprView::Int(n) => decimal(n as int),
        ExprView::Float(x) => x.fixed,
        ExprView::Variable(name) => name,
        ExprView::BinaryOp(l, op, r) => seq!['('] + rendered(*l) + op + rendered(*r) + seq![')'],
        ExprView::UnaryOp(op, inner) => seq!['('] + op + rendered(*inner) + seq![')'],
        ExprView::Assignment(name, value) => seq!['('] + name + seq!['='] + rendered(*value)
            + seq![')'],
        ExprView::Boolean(l, op, r) => seq!['('] + rendered(*l) + op + rendered(*r) + seq![')'],
        ExprView::List(elements) => "(list[("@ + decimal_nat(elements.len()) + ")])"@,
        ExprView::ListAccess(name, index) => seq!['('] + name + "[("@ + rendered(*index)
            + ")])"@,
    }
}

/// The message of an error, as the parser's report shows it.
pub open spec fn message(e: ParseErrorView) -> Seq<char> {
    match e {
        ParseErrorView::UndefinedVariable(name, p) => "Undefined variable "@ + name + located(p),
        ParseErrorView::SyntaxError(p) => "SyntaxError"@ + located(p),
        ParseErrorView::InvalidAtom(p) => "Invalid atom"@ + located(p),
        ParseErrorView::IndexOutOfRange(p, i) => "IndexOutOfRange"@ + located(p) + ", index "@
            + decimal_nat(i as nat),
        ParseErrorView::DivisionByZero(p) => "Division by zero"@ + located(p),
        ParseErrorView::MissingIndex(p) => "Missing index expression"@ + located(p),
        ParseErrorView::TokenizeError => "TokenizeError"@,
    }
}

/// The words that say where an error lies.
pub open spec fn located(p: Position) -> Seq<char> {
    " at line "@ + decimal_nat(p.line as nat) + ", pos "@ + decimal_nat(p.column as nat)
}

fn push_located(out: &mut Vec<char>, p: Position)
    ensures
        final(out)@ == old(out)@ + located(p),
{
    let ghost before = out@;
    push_str(out, " at line ");
    push_decimal_u64(out, p.line as u64);
    push_str(out, ", pos ");
    push_decimal_u64(out, p.column as u64);
    assert(out@ == before + located(p));
}

impl ParseError {
    /// The same error once more.
    pub fn copy(&self) -> (r: ParseError)
        ensures
            r@ == self@,
    {
        match self {
            ParseError::SyntaxError(p) => ParseError::SyntaxError(*p),
            ParseError::UndefinedVariable(name, p) => ParseError::UndefinedVariable(
                name.clone(),
                *p,
            ),
            ParseError::InvalidAtom(p) => ParseError::InvalidAtom(*p),
            ParseError::IndexOutOfRange(p, i) => ParseError::IndexOutOfRange(*p, *i),
            ParseError::DivisionByZero(p) => ParseError::DivisionByZero(*p),
            ParseError::MissingIndex(p) => ParseError::MissingIndex(*p),
            ParseError::TokenizeError => ParseError::TokenizeError,
        }
    }

    /// The message of the error.
    pub fn to_string(&self) -> (r: String)
        ensures
            r@ == message(self@),
    {
        let mut out: Vec<char> = Vec::new();
        match self {
            ParseError::UndefinedVariable(name, p) => {
                push_str(&mut out, "Undefined variable ");
                push_str(&mut out, name.as_str());
                push_located(&mut out, *p);
            },
            ParseError::SyntaxError(p) => {
                push_str(&mut out, "SyntaxError");
                push_located(&mut out, *p);
            },
            ParseError::InvalidAtom(p) => {
                push_str(&mut out, "Invalid atom");
                push_located(&mut out, *p);
            },
            ParseError::IndexOutOfRange(p, i) => {
                push_str(&mut out, "IndexOutOfRange");
                push_located(&mut out, *p);
                push_str(&mut out, ", index ");
                push_decimal_u64(&mut out, *i as u64);
            },
            ParseError::DivisionByZero(p) => {
                push_str(&mut out, "Division by zero");
                push_located(&mut out, *p);
            },
            ParseError::MissingIndex(p) => {
                push_str(&mut out, "Missing index expression");
                push_located(&mut out, *p);
            },
            ParseError::TokenizeError => {
                push_str(&mut out, "TokenizeError");
            },
        }
        assert(out@ == message(self@));
        string_of(&out)
    }
}

impl Clone for Expr {
    fn clone(&self) -> (r: Expr)
        ensures
            r@ == self@,
    {
        self.copy()
    }
}

impl Expr {
    /// The same tree once more.
    pub fn copy(&self) -> (r: Expr)
        ensures
            r@ == self@,
        decreases self,
    {
        match self {
            Expr::Int(n) => Expr::Int(*n),
            Expr::Float(x) => Expr::Float(x.copy()),
            Expr::Variable(name) => Expr::Variable(name.clone()),
            Expr::BinaryOp(l, op, r) => Expr::BinaryOp(
                Box::new(l.copy()),
                op.clone(),
                Box::new(r.copy()),
            ),
            Expr::Assignment(name, e) => Expr::Assignment(name.clone(), Box::new(e.copy())),
            Expr::Boolean(l, op, r) => Expr::Boolean(
                Box::new(l.copy()),
                op.clone(),
                Box::new(r.copy()),
            ),
            Expr::List(elements) => Expr::List(copy_of(elements)),
            Expr::ListAccess(name, e) => Expr::ListAccess(name.clone(), Box::new(e.copy())),
            Expr::UnaryOp(op, e) => Expr::UnaryOp(op.clone(), Box::new(e.copy())),
        }
    }

    fn render_into(&self, out: &mut Vec<char>)
        ensures
            final(out)@ == old(out)@ + rendered(self@),
        decreases self,
    {
        let ghost before = out@;
        match self {
            Expr::Int(n) => {
                push_decimal_i64(out, *n);
            },
            Expr::Float(x) => {
                push_str(out, x.fixed.as_str());
            },
            Expr::Variable(name) => {
                push_str(out, name.as_str());
            },
            Expr::BinaryOp(l, op, r) => {
                out.push('(');
                l.render_into(out);
                push_str(out, op.as_str());
                r.render_into(out);
                out.push(')');
                assert(out@ == before + rendered(self@));
            },
            Expr::UnaryOp(op, inner) => {
                out.push('(');
                push_str(out, op.as_str());
                inner.render_into(out);
                out.push(')');
                assert(out@ == before + rendered(self@));
            },
            Expr::Assignment(name, value) => {
                out.push('(');
                push_str(out, name.as_str());
                out.push('=');
                value.render_into(out);
                out.push(')');
                assert(out@ == before + rendered(self@));
            },
            Expr::Boolean(l, op, r) => {
                out.push('(');
                l.render_into(out);
                push_str(out, op.as_str());
                r.render_into(out);
                out.push(')');
                assert(out@ == before + rendered(self@));
            },
            Expr::List(elements) => {
                push_str(out, "(list[(");
                push_decimal_u64(out, elements.len() as u64);
                push_str(out, ")])");
                assert(out@ == before + rendered(self@));
            },
            Expr::ListAccess(name, index) => {
                out.push('(');
                push_str(out, name.as_str());
                push_str(out, "[(");
                index.render_into(out);
                push_str(out, ")])");
                assert(out@ == before + rendered(self@));
            },
        }
    }

    /// The rendering of the tree in brackets.
    pub fn to_string(&self) -> (r: String)
        ensures
            r@ == rendered(self@),
    {
        let mut out: Vec<char> = Vec::new();
        self.render_into(&mut out);
        assert(Seq::<char>::empty() + rendered(self@) == rendered(self@));
        string_of(&out)
    }
}

} // verus!
