//! What the parser makes of a line of tokens, stated as functions of
//! mathematics. The parser of the `parser` module computes these.
//!
//! A line is parsed by descent through the levels of the grammar, lowest
//! binding first: assignment, comparison, sum, product, power, atom. Each
//! function takes the line (`Context`) and the place reached in it
//! (`Cursor`) and gives the place reached afterwards together with the tree
//! or the error (`Parsed`). The table of variables travels in the cursor:
//! an assignment writes it, a reference reads it.

use vstd::prelude::*;
use crate::ast::{ExprView, ParseErrorView, Position};
use crate::number::{absolute, flipped, int_bits, is_negative, is_zero, nearest_whole, RealView};
use crate::scanner::TokenView;
use crate::text::{all_digits, decimal, digits_value, natural_value};

verus! {

/// The line that is parsed: its tokens, the column at which each of them
/// starts, the number of the line, and the real numbers that the lexemes of
/// the real literals denote.
pub struct Context {
    pub tokens: Seq<TokenView>,
    pub positions: Seq<usize>,
    pub line: usize,
    pub reals: Map<Seq<char>, RealView>,
}

/// The place reached in a line: the index of the next token, the running
/// column count, and the last value assigned to each variable.
pub struct Cursor {
    pub pos: nat,
    pub column: usize,
    pub variables: Map<Seq<char>, ExprView>,
}

/// The place reached, and the tree or the error.
pub struct Parsed {
    pub cursor: Cursor,
    pub result: Result<ExprView, ParseErrorView>,
}

/// What a numeric lexeme denotes: a whole number as its sign and magnitude,
/// or a real number.
pub enum Reading {
    Whole(bool, i64),
    Fraction(RealView),
}

/// The length that a token takes up in its line, in characters.
pub open spec fn token_length(t: TokenView) -> nat {
    match t {
        TokenView::VAR(name) => name.len(),
        TokenView::INT(n) => n.len(),
        TokenView::REAL(n) => n.len(),
        TokenView::EQ => 2,
        TokenView::NE => 2,
        TokenView::LE => 2,
        TokenView::GE => 2,
        TokenView::INTDIV => 2,
        TokenView::LIST => 4,
        _ => 1,
    }
}

/// `a + b`, held to the range of `usize`.
pub open spec fn plus(a: usize, b: nat) -> usize {
    if a + b > usize::MAX {
        usize::MAX
    } else {
        (a + b) as usize
    }
}

/// The next token, if one is left.
pub open spec fn peek(cx: Context, c: Cursor) -> Option<TokenView> {
    if c.pos < cx.tokens.len() {
        Some(cx.tokens[c.pos as int])
    } else {
        None
    }
}

/// The cursor behind the next token. The column count goes on by the
/// token's length, and by one more where a token follows.
pub open spec fn step_over(cx: Context, c: Cursor) -> Cursor {
    if c.pos < cx.tokens.len() {
        let column = plus(c.column, token_length(cx.tokens[c.pos as int]));
        Cursor {
            pos: c.pos + 1,
            column: if c.pos + 1 < cx.tokens.len() {
                plus(column, 1)
            } else {
                column
            },
            variables: c.variables,
        }
    } else {
        c
    }
}

/// The position that an error at this place reports: the column of the
/// token last passed; the column of the first token where none was passed;
/// the running column count where the columns of the tokens are not known.
pub open spec fn here(cx: Context, c: Cursor) -> Position {
    Position {
        line: cx.line,
        column: if c.pos > 0 && c.pos <= cx.positions.len() {
            cx.positions[c.pos - 1]
        } else if cx.positions.len() > 0 {
            cx.positions[0]
        } else {
            c.column
        },
    }
}

/// A tree, parsed up to the place `c`.
pub open spec fn done(c: Cursor, e: ExprView) -> Parsed {
    Parsed { cursor: c, result: Ok(e) }
}

/// An error, met at the place `c`.
pub open spec fn fail(c: Cursor, e: ParseErrorView) -> Parsed {
    Parsed { cursor: c, result: Err(e) }
}

/// A syntax error at the place `c`.
pub open spec fn syntax_error(cx: Context, c: Cursor) -> Parsed {
    fail(c, ParseErrorView::SyntaxError(here(cx, c)))
}

/// Whether the cursor `to` lies further on in the line than `from`.
pub open spec fn ahead(cx: Context, from: Cursor, to: Cursor) -> bool {
    from.pos < to.pos <= cx.tokens.len()
}

/// Whether the cursor `to` lies no further back in the line than `from`.
pub open spec fn not_behind(cx: Context, from: Cursor, to: Cursor) -> bool {
    from.pos <= to.pos <= cx.tokens.len()
}

/// Whether there is a token and it is a number.
pub open spec fn is_number(t: Option<TokenView>) -> bool {
    match t {
        Some(TokenView::INT(_)) => true,
        Some(TokenView::REAL(_)) => true,
        _ => false,
    }
}

/// The operator of a comparison token.
pub open spec fn comparison_sign(t: TokenView) -> Option<Seq<char>> {
    match t {
        TokenView::EQ => Some("=="@),
        TokenView::NE => Some("!="@),
        TokenView::GT => Some(">"@),
        TokenView::LT => Some("<"@),
        TokenView::GE => Some(">="@),
        TokenView::LE => Some("<="@),
        _ => None,
    }
}

/// Whether a token may stand behind a number: an operator, an opening or
/// closing round bracket, or a closing square bracket.
pub open spec fn may_follow_number(t: TokenView) -> bool {
    match t {
        TokenView::ADD => true,
        TokenView::SUB => true,
        TokenView::MUL => true,
        TokenView::DIV => true,
        TokenView::INTDIV => true,
        TokenView::POW => true,
        TokenView::EQ => true,
        TokenView::NE => true,
        TokenView::GT => true,
        TokenView::LT => true,
        TokenView::GE => true,
        TokenView::LE => true,
        TokenView::LPAREN => true,
        TokenView::RPAREN => true,
        TokenView::RBRACKET => true,
        _ => false,
    }
}

/// The digits of a whole-number lexeme: the lexeme without its minus sign,
/// where what is left is one digit or more and nothing else.
pub open spec fn whole_digits(lexeme: Seq<char>) -> Option<Seq<char>> {
    let d = if lexeme.len() > 0 && lexeme[0] == '-' {
        lexeme.skip(1)
    } else {
        lexeme
    };
    if d.len() > 0 && all_digits(d) {
        Some(d)
    } else {
        None
    }
}

/// The magnitude that a whole number is read as: the nearest number that
/// binary64 holds, and no more than the greatest `i64`.
pub open spec fn read_magnitude(v: nat) -> i64 {
    if v > 0x8000_0000_0000_0000 || nearest_whole(v) > i64::MAX {
        i64::MAX
    } else {
        nearest_whole(v) as i64
    }
}

/// What the lexeme of a whole number denotes. A minus sign before zero
/// denotes zero.
pub open spec fn whole_reading(lexeme: Seq<char>) -> Option<Reading> {
    match whole_digits(lexeme) {
        Some(d) => Some(
            Reading::Whole(lexeme[0] == '-' && digits_value(d) != 0, read_magnitude(digits_value(d))),
        ),
        None => None,
    }
}

/// What a numeric token denotes; nothing where its lexeme cannot be read.
pub open spec fn reading_of(cx: Context, t: TokenView) -> Option<Reading> {
    match t {
        TokenView::INT(lexeme) => whole_reading(lexeme),
        TokenView::REAL(lexeme) => if cx.reals.contains_key(lexeme) {
            Some(Reading::Fraction(cx.reals[lexeme]))
        } else {
            None
        },
        _ => None,
    }
}

/// Whether a number was read and lies below zero.
pub open spec fn reads_negative(r: Option<Reading>) -> bool {
    match r {
        Some(Reading::Whole(minus, _)) => minus,
        Some(Reading::Fraction(x)) => is_negative(x.bits),
        None => false,
    }
}

/// The absolute value of what a numeric token denotes. A whole number must
/// lie in the range of `i64`, its magnitude too.
pub open spec fn absolute_reading(cx: Context, t: TokenView) -> Option<Reading> {
    match t {
        TokenView::INT(lexeme) => match whole_digits(lexeme) {
            Some(d) => if digits_value(d) <= i64::MAX {
                Some(Reading::Whole(false, read_magnitude(digits_value(d))))
            } else {
                None
            },
            None => None,
        },
        TokenView::REAL(lexeme) => if cx.reals.contains_key(lexeme) {
            Some(Reading::Fraction(absolute(cx.reals[lexeme])))
        } else {
            None
        },
        _ => None,
    }
}

/// The tree with a minus sign before it.
pub open spec fn minus_of(e: ExprView) -> ExprView {
    ExprView::UnaryOp("-"@, Box::new(e))
}

/// The tree of a number that was read.
pub open spec fn number_tree(r: Reading) -> ExprView {
    match r {
        Reading::Whole(minus, m) => if minus {
            minus_of(ExprView::Int(m))
        } else {
            ExprView::Int(m)
        },
        Reading::Fraction(x) => if is_negative(x.bits) {
            minus_of(ExprView::Float(absolute(x)))
        } else {
            ExprView::Float(x)
        },
    }
}

/// The tree of an expression with a minus sign before it: the sign goes to
/// a variable, to the variable on the left of a comparison, and else to the
/// whole expression; a comparison whose left side is no variable stays as
/// it is.
pub open spec fn with_minus(e: ExprView) -> ExprView {
    match e {
        ExprView::Variable(name) => minus_of(e),
        ExprView::Boolean(l, op, r) => match *l {
            ExprView::Variable(name) => ExprView::Boolean(Box::new(minus_of(*l)), op, r),
            _ => e,
        },
        _ => minus_of(e),
    }
}

/// Whether a tree is a literal zero.
pub open spec fn is_literal_zero(e: ExprView) -> bool {
    match e {
        ExprView::Float(x) => is_zero(x.bits),
        ExprView::Int(n) => n == 0,
        _ => false,
    }
}

/// The index that a literal denotes: its value as a `usize`.
pub open spec fn index_of(n: i64) -> usize {
    n as usize
}

/// The bit pattern that a literal fills a list with; nothing for a tree
/// that is no literal with a sign or none.
pub open spec fn fill_bits(e: ExprView) -> Option<u64> {
    match e {
        ExprView::Int(n) => Some(int_bits(n as int)),
        ExprView::Float(x) => Some(x.bits),
        ExprView::UnaryOp(op, inner) => {
            let plain = match *inner {
                ExprView::Int(n) => Some(int_bits(n as int)),
                ExprView::Float(x) => Some(x.bits),
                _ => None,
            };
            match plain {
                Some(b) => if op == "-"@ {
                    Some(flipped(b))
                } else {
                    Some(b)
                },
                None => None,
            }
        },
        _ => None,
    }
}

/// The target of an assignment to an element: the name of the list with the
/// index in square and round brackets.
pub open spec fn element_target(name: Seq<char>, index: i64) -> Seq<char> {
    name + "[("@ + decimal(index as int) + ")]"@
}

/// The table of variables after the element `index` of the list `name` was
/// assigned `value`: the element holds the number of a literal, or the
/// element that `value` reads from another list. Nothing changes where
/// `name` names no list, or the index on either side lies outside.
pub open spec fn element_written(
    variables: Map<Seq<char>, ExprView>,
    name: Seq<char>,
    index: usize,
    value: ExprView,
) -> Option<Map<Seq<char>, ExprView>> {
    let target = if variables.contains_key(name) {
        match variables[name] {
            ExprView::List(l) => Some(l),
            _ => None,
        }
    } else {
        None
    };
    match value {
        ExprView::Int(n) => Some(
            match target {
                Some(l) => if index < l.len() {
                    variables.insert(
                        name,
                        ExprView::List(l.update(index as int, int_bits(n as int))),
                    )
                } else {
                    variables
                },
                None => variables,
            },
        ),
        ExprView::Float(x) => Some(
            match target {
                Some(l) => if index < l.len() {
                    variables.insert(name, ExprView::List(l.update(index as int, x.bits)))
                } else {
                    variables
                },
                None => variables,
            },
        ),
        ExprView::ListAccess(other, at) => {
            if variables.contains_key(other) && variables[other] is List {
                let source = variables[other]->List_0;
                match (target, *at) {
                    (Some(l), ExprView::Int(i)) => Some(
                        if index < l.len() && index_of(i) < source.len() {
                            variables.insert(
                                name,
                                ExprView::List(l.update(index as int, source[index_of(i) as int])),
                            )
                        } else {
                            variables
                        },
                    ),
                    (Some(l), _) => None,
                    (None, _) => Some(variables),
                }
            } else {
                None
            }
        },
        _ => None,
    }
}

/// What a line is parsed to from the place `c` on.
#[verifier::opaque]
pub open spec fn parsed_line(cx: Context, c: Cursor) -> Parsed {
    calculation(cx, c)
}

/// A whole line: an assignment where a name stands before an equals sign,
/// else an expression with a minus sign before it or none.
pub open spec fn calculation(cx: Context, c: Cursor) -> Parsed
    decreases cx.tokens.len() - c.pos, 9int,
{
    if peek(cx, c) is Some && peek(cx, c)->0 is VAR && c.pos + 1 < cx.tokens.len()
        && cx.tokens[c.pos as int + 1] is ASSIGN {
        assignment(cx, c)
    } else {
        let p = signed(cx, c);
        match p.result {
            Err(_) => p,
            Ok(left) => match peek(cx, p.cursor) {
                Some(t) => match comparison_sign(t) {
                    Some(op) => {
                        let c2 = step_over(cx, p.cursor);
                        if ahead(cx, c, c2) {
                            let q = expression(cx, c2);
                            match q.result {
                                Err(_) => q,
                                Ok(right) => done(
                                    q.cursor,
                                    ExprView::Boolean(Box::new(left), op, Box::new(right)),
                                ),
                            }
                        } else {
                            p
                        }
                    },
                    None => p,
                },
                None => p,
            },
        }
    }
}

/// `name = expression`. The value, which must not be an empty list, is
/// written into the table of variables.
pub open spec fn assignment(cx: Context, c: Cursor) -> Parsed
    decreases cx.tokens.len() - c.pos, 8int,
{
    let c1 = step_over(cx, c);
    match peek(cx, c) {
        Some(TokenView::VAR(name)) => {
            if peek(cx, c1) == Some(TokenView::ASSIGN) {
                let c2 = step_over(cx, c1);
                if ahead(cx, c, c2) {
                    let p = expression(cx, c2);
                    match p.result {
                        Err(_) => p,
                        Ok(value) => if value is List && value->List_0.len() == 0 {
                            syntax_error(cx, p.cursor)
                        } else {
                            done(
                                Cursor {
                                    variables: p.cursor.variables.insert(name, value),
                                    ..p.cursor
                                },
                                ExprView::Assignment(name, Box::new(value)),
                            )
                        },
                    }
                } else {
                    syntax_error(cx, c1)
                }
            } else {
                syntax_error(cx, c1)
            }
        },
        _ => syntax_error(cx, c1),
    }
}

/// An expression with a minus sign before it or none.
pub open spec fn signed(cx: Context, c: Cursor) -> Parsed
    decreases cx.tokens.len() - c.pos, 8int,
{
    if peek(cx, c) == Some(TokenView::SUB) {
        let p = expression(cx, step_over(cx, c));
        match p.result {
            Err(_) => p,
            Ok(e) => done(p.cursor, with_minus(e)),
        }
    } else {
        expression(cx, c)
    }
}

/// A term, followed by any number of terms that are added, subtracted or
/// compared; the operators bind to the left.
pub open spec fn expression(cx: Context, c: Cursor) -> Parsed
    decreases cx.tokens.len() - c.pos, 7int,
{
    let p = term(cx, c);
    match p.result {
        Err(_) => p,
        Ok(left) => if not_behind(cx, c, p.cursor) {
            expression_rest(cx, p.cursor, left)
        } else {
            p
        },
    }
}

/// What follows the first term of an expression, `left` being the tree so
/// far.
pub open spec fn expression_rest(cx: Context, c: Cursor, left: ExprView) -> Parsed
    decreases cx.tokens.len() - c.pos, 6int,
{
    match peek(cx, c) {
        Some(t) => {
            let sign = if t is ADD {
                Some("+"@)
            } else if t is SUB {
                Some("-"@)
            } else {
                comparison_sign(t)
            };
            match sign {
                None => done(c, left),
                Some(op) => {
                    let q = term(cx, step_over(cx, c));
                    match q.result {
                        Err(_) => q,
                        Ok(right) => if left is List || right is List {
                            syntax_error(cx, q.cursor)
                        } else if ahead(cx, c, q.cursor) {
                            expression_rest(
                                cx,
                                q.cursor,
                                if t is ADD || t is SUB {
                                    ExprView::BinaryOp(Box::new(left), op, Box::new(right))
                                } else {
                                    ExprView::Boolean(Box::new(left), op, Box::new(right))
                                },
                            )
                        } else {
                            q
                        },
                    }
                },
            }
        },
        None => done(c, left),
    }
}

/// A factor, followed by any number of factors that it is multiplied with or
/// divided by. A divisor that is a literal zero is an error.
pub open spec fn term(cx: Context, c: Cursor) -> Parsed
    decreases cx.tokens.len() - c.pos, 5int,
{
    let p = factor(cx, c);
    match p.result {
        Err(_) => p,
        Ok(left) => if not_behind(cx, c, p.cursor) {
            term_rest(cx, p.cursor, left)
        } else {
            p
        },
    }
}

/// What follows the first factor of a term, `left` being the tree so far.
pub open spec fn term_rest(cx: Context, c: Cursor, left: ExprView) -> Parsed
    decreases cx.tokens.len() - c.pos, 4int,
{
    match peek(cx, c) {
        Some(t) => if t is MUL || t is DIV {
            let c1 = step_over(cx, c);
            if peek(cx, c1) == Some(TokenView::LIST) {
                syntax_error(cx, c1)
            } else {
                let q = factor(cx, c1);
                match q.result {
                    Err(_) => q,
                    Ok(right) => if left is List || right is List {
                        syntax_error(cx, q.cursor)
                    } else if t is DIV && is_literal_zero(right) {
                        fail(q.cursor, ParseErrorView::DivisionByZero(here(cx, q.cursor)))
                    } else if ahead(cx, c, q.cursor) {
                        term_rest(
                            cx,
                            q.cursor,
                            ExprView::BinaryOp(
                                Box::new(left),
                                if t is MUL {
                                    "*"@
                                } else {
                                    "/"@
                                },
                                Box::new(right),
                            ),
                        )
                    } else {
                        q
                    },
                }
            }
        } else {
            done(c, left)
        },
        None => done(c, left),
    }
}

/// An atom, raised to a factor or not; the power binds to the right.
pub open spec fn factor(cx: Context, c: Cursor) -> Parsed
    decreases cx.tokens.len() - c.pos, 3int,
{
    let p = atom(cx, c);
    match p.result {
        Err(_) => p,
        Ok(base) => if not_behind(cx, c, p.cursor) {
            factor_rest(cx, p.cursor, base)
        } else {
            p
        },
    }
}

/// What follows the atom of a factor, `base` being the tree so far.
pub open spec fn factor_rest(cx: Context, c: Cursor, base: ExprView) -> Parsed
    decreases cx.tokens.len() - c.pos, 2int,
{
    if peek(cx, c) == Some(TokenView::POW) {
        let q = factor(cx, step_over(cx, c));
        match q.result {
            Err(_) => q,
            Ok(right) => if base is List || right is List {
                syntax_error(cx, q.cursor)
            } else if ahead(cx, c, q.cursor) {
                factor_rest(
                    cx,
                    q.cursor,
                    ExprView::BinaryOp(Box::new(base), "^"@, Box::new(right)),
                )
            } else {
                q
            },
        }
    } else {
        done(c, base)
    }
}

/// An expression in round brackets, a number, a variable or an element of
/// a list, or a list.
pub open spec fn atom(cx: Context, c: Cursor) -> Parsed
    decreases cx.tokens.len() - c.pos, 1int,
{
    match peek(cx, c) {
        Some(TokenView::LPAREN) => {
            let p = expression(cx, step_over(cx, c));
            match p.result {
                Err(_) => p,
                Ok(e) => if peek(cx, p.cursor) == Some(TokenView::RPAREN) {
                    done(step_over(cx, p.cursor), e)
                } else {
                    syntax_error(cx, p.cursor)
                },
            }
        },
        Some(TokenView::INT(n)) => number(cx, c, reading_of(cx, TokenView::INT(n))),
        Some(TokenView::REAL(n)) => number(cx, c, reading_of(cx, TokenView::REAL(n))),
        Some(TokenView::VAR(name)) => variable(cx, c, name),
        Some(TokenView::LIST) => list(cx, c),
        Some(TokenView::ERR) => syntax_error(cx, c),
        _ => fail(c, ParseErrorView::InvalidAtom(here(cx, c))),
    }
}

/// A number, whose token is the next. Where a number with a minus sign
/// follows at once, the two are taken as a subtraction: of the number that
/// the token passed last denotes, and the absolute value of the one that
/// follows. Else the number must be followed by a token that may follow
/// one, or by the end of the line.
pub open spec fn number(cx: Context, c: Cursor, reading: Option<Reading>) -> Parsed
    decreases cx.tokens.len() - c.pos, 0int,
{
    let previous = peek(cx, c);
    let c1 = step_over(cx, c);
    let current = peek(cx, c1);
    if is_number(previous) && is_number(current) && reads_negative(reading_of(cx, current->0)) {
        if ahead(cx, c, c1) {
            let p = number(cx, c1, reading_of(cx, previous->0));
            match p.result {
                Err(_) => p,
                Ok(first) => if ahead(cx, c, p.cursor) {
                    let q = number(cx, p.cursor, absolute_reading(cx, current->0));
                    match q.result {
                        Err(_) => q,
                        Ok(second) => done(
                            q.cursor,
                            ExprView::BinaryOp(Box::new(first), "-"@, Box::new(second)),
                        ),
                    }
                } else {
                    p
                },
            }
        } else {
            syntax_error(cx, c1)
        }
    } else if current is Some && !may_follow_number(current->0) {
        syntax_error(cx, c1)
    } else {
        match reading {
            None => syntax_error(cx, c1),
            Some(r) => done(c1, number_tree(r)),
        }
    }
}

/// A variable, whose token is the next: a reference to it, a reference to
/// an element of the list it names, or an assignment to such an element.
/// The variable must have been assigned; an element's index must be a
/// literal inside the list.
pub open spec fn variable(cx: Context, c: Cursor, name: Seq<char>) -> Parsed
    decreases cx.tokens.len() - c.pos, 0int,
{
    let c1 = step_over(cx, c);
    if peek(cx, c1) == Some(TokenView::LBRACKET) {
        let c2 = step_over(cx, c1);
        if ahead(cx, c, c2) {
            let p = expression(cx, c2);
            match p.result {
                Err(_) => p,
                Ok(index) => if peek(cx, p.cursor) == Some(TokenView::RBRACKET) {
                    let c3 = step_over(cx, p.cursor);
                    if !c3.variables.contains_key(name) {
                        fail(c3, ParseErrorView::UndefinedVariable(name, here(cx, c3)))
                    } else {
                        match (c3.variables[name], index) {
                            (ExprView::List(l), ExprView::Int(n)) => if index_of(n) >= l.len() {
                                fail(
                                    c3,
                                    ParseErrorView::IndexOutOfRange(here(cx, c3), index_of(n)),
                                )
                            } else if peek(cx, c3) == Some(TokenView::ASSIGN) {
                                let c4 = step_over(cx, c3);
                                if ahead(cx, c, c4) {
                                    let q = expression(cx, c4);
                                    match q.result {
                                        Err(_) => q,
                                        Ok(value) => match element_written(
                                            q.cursor.variables,
                                            name,
                                            index_of(n),
                                            value,
                                        ) {
                                            Some(variables) => done(
                                                Cursor { variables: variables, ..q.cursor },
                                                ExprView::Assignment(
                                                    element_target(name, n),
                                                    Box::new(value),
                                                ),
                                            ),
                                            None => syntax_error(cx, q.cursor),
                                        },
                                    }
                                } else {
                                    syntax_error(cx, c4)
                                }
                            } else {
                                done(c3, ExprView::ListAccess(name, Box::new(index)))
                            },
                            _ => syntax_error(cx, c3),
                        }
                    }
                } else {
                    syntax_error(cx, p.cursor)
                },
            }
        } else {
            syntax_error(cx, c2)
        }
    } else if !c1.variables.contains_key(name) {
        fail(c1, ParseErrorView::UndefinedVariable(name, here(cx, c1)))
    } else {
        done(c1, ExprView::Variable(name))
    }
}

/// The size of a list as its token gives it.
pub open spec fn list_size(t: Option<TokenView>) -> Option<usize> {
    match t {
        Some(TokenView::INT(lexeme)) => match natural_value(lexeme) {
            Some(v) => if 0 < v <= usize::MAX {
                Some(v as usize)
            } else {
                None
            },
            None => None,
        },
        _ => None,
    }
}

/// A list with every element the same.
pub open spec fn filled(size: usize, bits: u64) -> Seq<u64> {
    Seq::new(size as nat, |i: int| bits)
}

/// A list, whose token `list` is the next: `list[N]` with `N` a literal
/// above zero, and behind it an equals sign and what it is filled with, or
/// nothing. It is filled with zero, with a literal, or with the elements of
/// a list of the same length, named or written out.
pub open spec fn list(cx: Context, c: Cursor) -> Parsed
    decreases cx.tokens.len() - c.pos, 0int,
{
    let c1 = step_over(cx, c);
    if peek(cx, c1) != Some(TokenView::LBRACKET) {
        syntax_error(cx, c1)
    } else {
        let c2 = step_over(cx, c1);
        let c3 = step_over(cx, c2);
        if peek(cx, c2) == Some(TokenView::RBRACKET) {
            fail(c2, ParseErrorView::MissingIndex(here(cx, c2)))
        } else {
            match list_size(peek(cx, c2)) {
                None => syntax_error(cx, c3),
                Some(size) => if peek(cx, c3) != Some(TokenView::RBRACKET) {
                    syntax_error(cx, c3)
                } else {
                    let c4 = step_over(cx, c3);
                    if peek(cx, c4) == Some(TokenView::ASSIGN) {
                        let c5 = step_over(cx, c4);
                        if !ahead(cx, c, c5) {
                            syntax_error(cx, c5)
                        } else if is_number(peek(cx, c5)) {
                            let p = expression(cx, c5);
                            match p.result {
                                Err(_) => p,
                                Ok(value) => match fill_bits(value) {
                                    Some(bits) => done(
                                        p.cursor,
                                        ExprView::List(filled(size, bits)),
                                    ),
                                    None => syntax_error(cx, p.cursor),
                                },
                            }
                        } else if peek(cx, c5) is Some && peek(cx, c5)->0 is VAR {
                            let p = expression(cx, c5);
                            match p.result {
                                Err(_) => p,
                                Ok(ExprView::Variable(name)) => {
                                    if p.cursor.variables.contains_key(name)
                                        && p.cursor.variables[name] is List
                                        && p.cursor.variables[name]->List_0.len() == size {
                                        done(p.cursor, p.cursor.variables[name])
                                    } else {
                                        syntax_error(cx, p.cursor)
                                    }
                                },
                                Ok(_) => syntax_error(cx, p.cursor),
                            }
                        } else if peek(cx, c5) == Some(TokenView::LIST) {
                            let p = expression(cx, c5);
                            match p.result {
                                Err(_) => p,
                                Ok(ExprView::List(l)) => if l.len() == size {
                                    done(p.cursor, ExprView::List(l))
                                } else {
                                    syntax_error(cx, p.cursor)
                                },
                                Ok(_) => syntax_error(cx, p.cursor),
                            }
                        } else {
                            syntax_error(cx, c5)
                        }
                    } else {
                        done(c4, ExprView::List(filled(size, 0)))
                    }
                },
            }
        }
    }
}

} // verus!
