//! What holds of the grammar: which lines are errors, and what an
//! assignment leaves behind.

use vstd::prelude::*;
use crate::ast::{ExprView, ParseErrorView};
use crate::grammar::{
    ahead,
    assignment,
    atom,
    calculation,
    comparison_sign,
    done,
    expression,
    expression_rest,
    factor,
    factor_rest,
    fail,
    here,
    index_of,
    is_literal_zero,
    list,
    list_size,
    not_behind,
    number,
    number_tree,
    parsed_line,
    peek,
    reading_of,
    signed,
    step_over,
    syntax_error,
    term,
    term_rest,
    variable,
    whole_reading,
    Context,
    Cursor,
    Parsed,
    Reading,
};
use crate::number::is_zero;
use crate::scanner::TokenView;

verus! {

/// The cursor at the start of a line.
pub open spec fn at_start(c: Cursor) -> bool {
    c.pos == 0
}

/// The cursor behind the first `n` tokens of a line that has as many.
pub open spec fn behind(cx: Context, c: Cursor, n: nat) -> Cursor
    decreases n,
{
    if n == 0 {
        c
    } else {
        step_over(cx, behind(cx, c, (n - 1) as nat))
    }
}

/// Whether a token is an operator of arithmetic or of comparison.
pub open spec fn is_operator(t: TokenView) -> bool {
    t is ADD || t is SUB || t is MUL || t is DIV || t is POW || comparison_sign(t) is Some
}

/// A divisor that is a literal zero is the error `DivisionByZero`, reported
/// at the place behind the divisor.
pub proof fn theorem_zero_divisor(cx: Context, c: Cursor, left: ExprView)
    requires
        peek(cx, c) == Some(TokenView::DIV),
        peek(cx, step_over(cx, c)) != Some(TokenView::LIST),
        factor(cx, step_over(cx, c)).result is Ok,
        is_literal_zero(factor(cx, step_over(cx, c)).result->Ok_0),
        !(left is List),
    ensures
        term_rest(cx, c, left) == fail(
            factor(cx, step_over(cx, c)).cursor,
            ParseErrorView::DivisionByZero(here(cx, factor(cx, step_over(cx, c)).cursor)),
        ),
{
}

/// Whether a number was read and is zero.
pub open spec fn reads_zero(r: Option<Reading>) -> bool {
    match r {
        Some(Reading::Whole(minus, m)) => !minus && m == 0,
        Some(Reading::Fraction(x)) => is_zero(x.bits),
        None => false,
    }
}

/// A line that is a number, a division sign and a number that is zero is the
/// error `DivisionByZero`, whether the numbers are whole or real, and
/// nothing is parsed.
pub proof fn theorem_division_by_literal_zero(
    cx: Context,
    c: Cursor,
    dividend: TokenView,
    zero: TokenView,
)
    requires
        at_start(c),
        cx.tokens == seq![dividend, TokenView::DIV, zero],
        reading_of(cx, dividend) is Some,
        reads_zero(reading_of(cx, zero)),
    ensures
        term(cx, c) == fail(
            behind(cx, c, 3),
            ParseErrorView::DivisionByZero(here(cx, behind(cx, c, 3))),
        ),
        parsed_line(cx, c) == term(cx, c),
        parsed_line(cx, c).cursor.variables == c.variables,
{
    reveal(parsed_line);
    reveal_with_fuel(behind, 4);
    let c1 = step_over(cx, c);
    let c2 = step_over(cx, c1);
    let c3 = step_over(cx, c2);
    assert(peek(cx, c) == Some(dividend));
    assert(peek(cx, c1) == Some(TokenView::DIV));
    assert(peek(cx, c2) == Some(zero));
    assert(peek(cx, c3) is None);
    // the dividend
    let left = number_tree(reading_of(cx, dividend)->0);
    let first = number(cx, c, reading_of(cx, dividend));
    assert(first == done(c1, left));
    assert(atom(cx, c) == first);
    assert(factor_rest(cx, c1, left) == first);
    assert(factor(cx, c) == first);
    // the divisor
    let right = number_tree(reading_of(cx, zero)->0);
    let second = number(cx, c2, reading_of(cx, zero));
    assert(second == done(c3, right));
    assert(is_literal_zero(right));
    assert(atom(cx, c2) == second);
    assert(factor_rest(cx, c3, right) == second);
    assert(factor(cx, c2) == second);
    assert(!(left is List));
    theorem_zero_divisor(cx, c1, left);
    let failed = fail(c3, ParseErrorView::DivisionByZero(here(cx, c3)));
    assert(term_rest(cx, c1, left) == failed);
    assert(term(cx, c) == failed);
    assert(expression(cx, c) == failed);
    assert(signed(cx, c) == failed);
    assert(calculation(cx, c) == failed);
}

/// A name that was not assigned and has no opening square bracket behind it
/// is the error `UndefinedVariable`, wherever in a line it stands, and the
/// table of variables stays as it was.
pub proof fn theorem_undefined_reference(cx: Context, c: Cursor, name: Seq<char>)
    requires
        peek(cx, c) == Some(TokenView::VAR(name)),
        peek(cx, step_over(cx, c)) != Some(TokenView::LBRACKET),
        !c.variables.contains_key(name),
    ensures
        atom(cx, c) == variable(cx, c, name),
        variable(cx, c, name) == fail(
            step_over(cx, c),
            ParseErrorView::UndefinedVariable(name, here(cx, step_over(cx, c))),
        ),
        variable(cx, c, name).cursor.variables == c.variables,
{
}

/// A reference to a variable that was not assigned is the error
/// `UndefinedVariable`: a line that starts with a name that the table of
/// variables does not hold, and goes on with neither an equals sign nor an
/// opening square bracket.
pub proof fn theorem_undefined_variable(cx: Context, c: Cursor, name: Seq<char>)
    requires
        at_start(c),
        cx.tokens.len() >= 1,
        cx.tokens[0] == TokenView::VAR(name),
        cx.tokens.len() >= 2 ==> !(cx.tokens[1] is ASSIGN) && !(cx.tokens[1] is LBRACKET),
        !c.variables.contains_key(name),
    ensures
        parsed_line(cx, c) == fail(
            step_over(cx, c),
            ParseErrorView::UndefinedVariable(name, here(cx, step_over(cx, c))),
        ),
{
    reveal(parsed_line);
    let c1 = step_over(cx, c);
    let failed = fail(c1, ParseErrorView::UndefinedVariable(name, here(cx, c1)));
    assert(peek(cx, c) == Some(TokenView::VAR(name)));
    assert(peek(cx, c1) != Some(TokenView::LBRACKET));
    assert(variable(cx, c, name) == failed);
    assert(atom(cx, c) == failed);
    assert(factor(cx, c) == failed);
    assert(term(cx, c) == failed);
    assert(expression(cx, c) == failed);
    assert(signed(cx, c) == failed);
    assert(calculation(cx, c) == failed);
}

/// An assignment that is parsed leaves its value in the table of variables
/// under its name, in place of any value that the name had: the last
/// assignment is the one that a later line finds.
pub proof fn theorem_assignment_is_kept(cx: Context, c: Cursor)
    requires
        assignment(cx, c).result is Ok,
    ensures
        assignment(cx, c).result->Ok_0 is Assignment,
        ({
            let name = assignment(cx, c).result->Ok_0->Assignment_0;
            let value = *assignment(cx, c).result->Ok_0->Assignment_1;
            &&& peek(cx, c) == Some(TokenView::VAR(name))
            &&& assignment(cx, c).cursor.variables.contains_key(name)
            &&& assignment(cx, c).cursor.variables[name] == value
        }),
{
}

/// A reference to a variable that was assigned is parsed: a line that is
/// nothing but a name that the table of variables holds.
pub proof fn theorem_defined_variable(cx: Context, c: Cursor, name: Seq<char>)
    requires
        at_start(c),
        cx.tokens == seq![TokenView::VAR(name)],
        c.variables.contains_key(name),
    ensures
        parsed_line(cx, c) == done(step_over(cx, c), ExprView::Variable(name)),
{
    reveal(parsed_line);
    let c1 = step_over(cx, c);
    let parsed = done(c1, ExprView::Variable(name));
    assert(peek(cx, c) == Some(TokenView::VAR(name)));
    assert(peek(cx, c1) is None);
    assert(variable(cx, c, name) == parsed);
    assert(atom(cx, c) == parsed);
    assert(factor_rest(cx, c1, ExprView::Variable(name)) == parsed);
    assert(factor(cx, c) == parsed);
    assert(term_rest(cx, c1, ExprView::Variable(name)) == parsed);
    assert(term(cx, c) == parsed);
    assert(expression_rest(cx, c1, ExprView::Variable(name)) == parsed);
    assert(expression(cx, c) == parsed);
    assert(signed(cx, c) == parsed);
    assert(calculation(cx, c) == parsed);
}

/// A list with nothing between its square brackets is the error
/// `MissingIndex`.
pub proof fn theorem_missing_index(cx: Context, c: Cursor)
    requires
        at_start(c),
        cx.tokens.len() >= 3,
        cx.tokens[0] == TokenView::LIST,
        cx.tokens[1] == TokenView::LBRACKET,
        cx.tokens[2] == TokenView::RBRACKET,
    ensures
        parsed_line(cx, c) == fail(
            behind(cx, c, 2),
            ParseErrorView::MissingIndex(here(cx, behind(cx, c, 2))),
        ),
{
    reveal(parsed_line);
    reveal_with_fuel(behind, 3);
    let c1 = step_over(cx, c);
    let c2 = step_over(cx, c1);
    let failed = fail(c2, ParseErrorView::MissingIndex(here(cx, c2)));
    assert(peek(cx, c) == Some(TokenView::LIST));
    assert(peek(cx, c1) == Some(TokenView::LBRACKET));
    assert(peek(cx, c2) == Some(TokenView::RBRACKET));
    assert(list(cx, c) == failed);
    assert(atom(cx, c) == failed);
    assert(factor(cx, c) == failed);
    assert(term(cx, c) == failed);
    assert(expression(cx, c) == failed);
    assert(signed(cx, c) == failed);
    assert(calculation(cx, c) == failed);
}

/// An element of a list whose index is a literal that lies outside the list
/// is the error `IndexOutOfRange`, which tells the index.
pub proof fn theorem_index_out_of_range(
    cx: Context,
    c: Cursor,
    name: Seq<char>,
    index: Seq<char>,
    n: i64,
)
    requires
        at_start(c),
        cx.tokens.len() >= 4,
        cx.tokens[0] == TokenView::VAR(name),
        cx.tokens[1] == TokenView::LBRACKET,
        cx.tokens[2] == TokenView::INT(index),
        cx.tokens[3] == TokenView::RBRACKET,
        whole_reading(index) == Some(Reading::Whole(false, n)),
        c.variables.contains_key(name),
        c.variables[name] is List,
        index_of(n) >= c.variables[name]->List_0.len(),
    ensures
        variable(cx, c, name) == fail(
            behind(cx, c, 4),
            ParseErrorView::IndexOutOfRange(here(cx, behind(cx, c, 4)), index_of(n)),
        ),
        parsed_line(cx, c) == variable(cx, c, name),
        parsed_line(cx, c).cursor.variables == c.variables,
{
    reveal(parsed_line);
    reveal_with_fuel(behind, 5);
    let c1 = step_over(cx, c);
    let c2 = step_over(cx, c1);
    let c3 = step_over(cx, c2);
    let c4 = step_over(cx, c3);
    let failed = fail(c4, ParseErrorView::IndexOutOfRange(here(cx, c4), index_of(n)));
    assert(peek(cx, c) == Some(TokenView::VAR(name)));
    assert(peek(cx, c1) == Some(TokenView::LBRACKET));
    assert(peek(cx, c2) == Some(TokenView::INT(index)));
    assert(peek(cx, c3) == Some(TokenView::RBRACKET));
    let literal = done(c3, ExprView::Int(n));
    assert(number(cx, c2, whole_reading(index)) == literal);
    assert(atom(cx, c2) == literal);
    assert(factor_rest(cx, c3, ExprView::Int(n)) == literal);
    assert(factor(cx, c2) == literal);
    assert(term_rest(cx, c3, ExprView::Int(n)) == literal);
    assert(term(cx, c2) == literal);
    assert(expression_rest(cx, c3, ExprView::Int(n)) == literal);
    assert(expression(cx, c2) == literal);
    assert(c4.variables == c.variables);
    assert(variable(cx, c, name) == failed);
    assert(atom(cx, c) == failed);
    assert(factor(cx, c) == failed);
    assert(term(cx, c) == failed);
    assert(expression(cx, c) == failed);
    assert(signed(cx, c) == failed);
    assert(calculation(cx, c) == failed);
}

/// An element of a list whose index is a literal that lies inside the list
/// is parsed to a reference to that element, and the table of variables
/// stays as it was.
pub proof fn theorem_index_in_range(
    cx: Context,
    c: Cursor,
    name: Seq<char>,
    index: Seq<char>,
    n: i64,
)
    requires
        at_start(c),
        cx.tokens == seq![
            TokenView::VAR(name),
            TokenView::LBRACKET,
            TokenView::INT(index),
            TokenView::RBRACKET,
        ],
        whole_reading(index) == Some(Reading::Whole(false, n)),
        c.variables.contains_key(name),
        c.variables[name] is List,
        index_of(n) < c.variables[name]->List_0.len(),
    ensures
        variable(cx, c, name) == done(
            behind(cx, c, 4),
            ExprView::ListAccess(name, Box::new(ExprView::Int(n))),
        ),
        parsed_line(cx, c) == variable(cx, c, name),
        parsed_line(cx, c).cursor.variables == c.variables,
{
    reveal(parsed_line);
    reveal_with_fuel(behind, 5);
    let c1 = step_over(cx, c);
    let c2 = step_over(cx, c1);
    let c3 = step_over(cx, c2);
    let c4 = step_over(cx, c3);
    let element = ExprView::ListAccess(name, Box::new(ExprView::Int(n)));
    let parsed = done(c4, element);
    assert(peek(cx, c) == Some(TokenView::VAR(name)));
    assert(peek(cx, c1) == Some(TokenView::LBRACKET));
    assert(peek(cx, c2) == Some(TokenView::INT(index)));
    assert(peek(cx, c3) == Some(TokenView::RBRACKET));
    assert(peek(cx, c4) is None);
    let literal = done(c3, ExprView::Int(n));
    assert(number(cx, c2, whole_reading(index)) == literal);
    assert(atom(cx, c2) == literal);
    assert(factor_rest(cx, c3, ExprView::Int(n)) == literal);
    assert(factor(cx, c2) == literal);
    assert(term_rest(cx, c3, ExprView::Int(n)) == literal);
    assert(term(cx, c2) == literal);
    assert(expression_rest(cx, c3, ExprView::Int(n)) == literal);
    assert(expression(cx, c2) == literal);
    assert(c4.variables == c.variables);
    assert(variable(cx, c, name) == parsed);
    assert(atom(cx, c) == parsed);
    assert(factor_rest(cx, c4, element) == parsed);
    assert(factor(cx, c) == parsed);
    assert(term_rest(cx, c4, element) == parsed);
    assert(term(cx, c) == parsed);
    assert(expression_rest(cx, c4, element) == parsed);
    assert(expression(cx, c) == parsed);
    assert(signed(cx, c) == parsed);
    assert(calculation(cx, c) == parsed);
}

/// A list takes no operator of addition, subtraction or comparison: behind
/// a list such an operator gives an error, and where the term behind the
/// operator is parsed, the error is a syntax error at the place behind it.
pub proof fn theorem_list_in_sum(cx: Context, c: Cursor, left: ExprView)
    requires
        left is List,
        peek(cx, c) is Some,
        peek(cx, c)->0 is ADD || peek(cx, c)->0 is SUB || comparison_sign(peek(cx, c)->0) is Some,
    ensures
        expression_rest(cx, c, left).result is Err,
        term(cx, step_over(cx, c)).result is Ok ==> expression_rest(cx, c, left) == syntax_error(
            cx,
            term(cx, step_over(cx, c)).cursor,
        ),
{
}

/// A list takes no operator of multiplication or division.
pub proof fn theorem_list_in_product(cx: Context, c: Cursor, left: ExprView)
    requires
        left is List,
        peek(cx, c) is Some,
        peek(cx, c)->0 is MUL || peek(cx, c)->0 is DIV,
    ensures
        term_rest(cx, c, left).result is Err,
        (peek(cx, step_over(cx, c)) != Some(TokenView::LIST) && factor(
            cx,
            step_over(cx, c),
        ).result is Ok) ==> term_rest(cx, c, left) == syntax_error(
            cx,
            factor(cx, step_over(cx, c)).cursor,
        ),
{
}

/// A list takes no power.
pub proof fn theorem_list_in_power(cx: Context, c: Cursor, left: ExprView)
    requires
        left is List,
        peek(cx, c) == Some(TokenView::POW),
    ensures
        factor_rest(cx, c, left).result is Err,
        factor(cx, step_over(cx, c)).result is Ok ==> factor_rest(cx, c, left) == syntax_error(
            cx,
            factor(cx, step_over(cx, c)).cursor,
        ),
{
}

/// What stands behind an operator at the place `c` as its right operand: a
/// factor behind a sign of multiplication, division or power, a term behind
/// any other.
pub open spec fn operand_behind(cx: Context, c: Cursor) -> Parsed {
    let t = peek(cx, c)->0;
    if t is POW || t is MUL || t is DIV {
        factor(cx, step_over(cx, c))
    } else {
        term(cx, step_over(cx, c))
    }
}

/// A line that starts with a list and goes on with an operator of
/// arithmetic or of comparison is an error: that of the list where the list
/// is not parsed, and a syntax error where the list and the operand behind
/// the operator are parsed.
pub proof fn theorem_list_takes_no_operator(cx: Context, c: Cursor, size: Seq<char>)
    requires
        at_start(c),
        cx.tokens.len() >= 5,
        cx.tokens[0] == TokenView::LIST,
        cx.tokens[1] == TokenView::LBRACKET,
        cx.tokens[2] == TokenView::INT(size),
        cx.tokens[3] == TokenView::RBRACKET,
        is_operator(cx.tokens[4]),
    ensures
        parsed_line(cx, c).result is Err,
        list(cx, c).result is Ok <==> list_size(Some(TokenView::INT(size))) is Some,
        list(cx, c).result is Err ==> parsed_line(cx, c) == list(cx, c),
        list(cx, c).result is Ok && operand_behind(cx, behind(cx, c, 4)).result is Ok
            ==> parsed_line(cx, c).result->Err_0 is SyntaxError,
{
    reveal(parsed_line);
    reveal_with_fuel(behind, 5);
    let c1 = step_over(cx, c);
    let c2 = step_over(cx, c1);
    let c3 = step_over(cx, c2);
    let c4 = step_over(cx, c3);
    let t = cx.tokens[4];
    assert(peek(cx, c) == Some(TokenView::LIST));
    assert(peek(cx, c1) == Some(TokenView::LBRACKET));
    assert(peek(cx, c2) == Some(TokenView::INT(size)));
    assert(peek(cx, c3) == Some(TokenView::RBRACKET));
    assert(peek(cx, c4) == Some(t));
    let first = list(cx, c);
    if first.result is Err {
        assert(atom(cx, c) == first);
        assert(factor(cx, c) == first);
        assert(term(cx, c) == first);
        assert(expression(cx, c) == first);
        assert(signed(cx, c) == first);
        assert(calculation(cx, c) == first);
    } else {
        assert(list_size(Some(TokenView::INT(size))) is Some);
        let l = first.result->Ok_0;
        assert(first.cursor == c4 && l is List);
        assert(atom(cx, c) == first);
        if t is POW {
            theorem_list_in_power(cx, c4, l);
            let failed = factor_rest(cx, c4, l);
            assert(factor(cx, c) == failed);
            assert(term(cx, c) == failed);
            assert(expression(cx, c) == failed);
            assert(signed(cx, c) == failed);
            assert(calculation(cx, c) == failed);
        } else {
            assert(factor_rest(cx, c4, l) == first);
            assert(factor(cx, c) == first);
            if t is MUL || t is DIV {
                theorem_list_in_product(cx, c4, l);
                let failed = term_rest(cx, c4, l);
                assert(term(cx, c) == failed);
                assert(expression(cx, c) == failed);
                assert(signed(cx, c) == failed);
                assert(calculation(cx, c) == failed);
            } else {
                assert(term_rest(cx, c4, l) == first);
                assert(term(cx, c) == first);
                theorem_list_in_sum(cx, c4, l);
                let failed = expression_rest(cx, c4, l);
                assert(expression(cx, c) == failed);
                assert(signed(cx, c) == failed);
                assert(calculation(cx, c) == failed);
            }
        }
    }
}

/// A line that is a list of a size above zero, an operator of arithmetic or
/// of comparison and a number is a syntax error, reported at the end of the
/// line.
pub proof fn theorem_list_with_number(cx: Context, c: Cursor, size: Seq<char>, number: TokenView)
    requires
        at_start(c),
        cx.tokens.len() == 6,
        cx.tokens[0] == TokenView::LIST,
        cx.tokens[1] == TokenView::LBRACKET,
        cx.tokens[2] == TokenView::INT(size),
        cx.tokens[3] == TokenView::RBRACKET,
        is_operator(cx.tokens[4]),
        cx.tokens[5] == number,
        list_size(Some(TokenView::INT(size))) is Some,
        reading_of(cx, number) is Some,
    ensures
        parsed_line(cx, c) == syntax_error(cx, behind(cx, c, 6)),
{
    reveal(parsed_line);
    reveal_with_fuel(behind, 7);
    let c1 = step_over(cx, c);
    let c2 = step_over(cx, c1);
    let c3 = step_over(cx, c2);
    let c4 = step_over(cx, c3);
    let c5 = step_over(cx, c4);
    let c6 = step_over(cx, c5);
    let t = cx.tokens[4];
    assert(peek(cx, c) == Some(TokenView::LIST));
    assert(peek(cx, c1) == Some(TokenView::LBRACKET));
    assert(peek(cx, c2) == Some(TokenView::INT(size)));
    assert(peek(cx, c3) == Some(TokenView::RBRACKET));
    assert(peek(cx, c4) == Some(t));
    assert(peek(cx, c5) == Some(number));
    assert(peek(cx, c6) is None);
    // the number behind the operator
    let right = number_tree(reading_of(cx, number)->0);
    let second = done(c6, right);
    assert(crate::grammar::number(cx, c5, reading_of(cx, number)) == second);
    assert(atom(cx, c5) == second);
    assert(factor_rest(cx, c6, right) == second);
    assert(factor(cx, c5) == second);
    assert(term_rest(cx, c6, right) == second);
    assert(term(cx, c5) == second);
    // the list before it
    let first = list(cx, c);
    let l = first.result->Ok_0;
    assert(first.result is Ok && first.cursor == c4 && l is List);
    assert(atom(cx, c) == first);
    let failed = syntax_error(cx, c6);
    if t is POW {
        theorem_list_in_power(cx, c4, l);
        assert(factor_rest(cx, c4, l) == failed);
        assert(factor(cx, c) == failed);
        assert(term(cx, c) == failed);
    } else {
        assert(factor_rest(cx, c4, l) == first);
        assert(factor(cx, c) == first);
        if t is MUL || t is DIV {
            theorem_list_in_product(cx, c4, l);
            assert(term_rest(cx, c4, l) == failed);
            assert(term(cx, c) == failed);
        } else {
            assert(term_rest(cx, c4, l) == first);
            assert(term(cx, c) == first);
            theorem_list_in_sum(cx, c4, l);
            assert(expression_rest(cx, c4, l) == failed);
        }
    }
    assert(expression(cx, c) == failed);
    assert(signed(cx, c) == failed);
    assert(calculation(cx, c) == failed);
}

/// Whether a function of the grammar, started inside the line, has ended no
/// further back and inside the line.
pub open spec fn goes_on(cx: Context, c: Cursor, p: Parsed) -> bool {
    c.pos <= cx.tokens.len() ==> not_behind(cx, c, p.cursor)
}

/// The parser never goes back in its line: at every level of the grammar
/// the place reached lies no further back than the place started from, and
/// inside the line.
pub proof fn theorem_calculation_goes_on(cx: Context, c: Cursor)
    ensures
        goes_on(cx, c, calculation(cx, c)),
        goes_on(cx, c, parsed_line(cx, c)),
    decreases cx.tokens.len() - c.pos, 9int,
{
    reveal(parsed_line);
    if c.pos <= cx.tokens.len() {
        if peek(cx, c) is Some && peek(cx, c)->0 is VAR && c.pos + 1 < cx.tokens.len()
            && cx.tokens[c.pos as int + 1] is ASSIGN {
            theorem_assignment_goes_on(cx, c);
        } else {
            theorem_signed_goes_on(cx, c);
            let p = signed(cx, c);
            if p.result is Ok && peek(cx, p.cursor) is Some && comparison_sign(
                peek(cx, p.cursor)->0,
            ) is Some {
                let c2 = step_over(cx, p.cursor);
                if ahead(cx, c, c2) {
                    theorem_expression_goes_on(cx, c2);
                }
            }
        }
    }
}

/// An assignment never goes back in its line.
pub proof fn theorem_assignment_goes_on(cx: Context, c: Cursor)
    ensures
        goes_on(cx, c, assignment(cx, c)),
    decreases cx.tokens.len() - c.pos, 8int,
{
    if c.pos <= cx.tokens.len() {
        let c1 = step_over(cx, c);
        let c2 = step_over(cx, c1);
        if peek(cx, c) is Some && peek(cx, c)->0 is VAR && peek(cx, c1) == Some(
            TokenView::ASSIGN,
        ) && ahead(cx, c, c2) {
            theorem_expression_goes_on(cx, c2);
        }
    }
}

/// An expression with a minus sign before it never goes back in its line.
pub proof fn theorem_signed_goes_on(cx: Context, c: Cursor)
    ensures
        goes_on(cx, c, signed(cx, c)),
    decreases cx.tokens.len() - c.pos, 8int,
{
    if c.pos <= cx.tokens.len() {
        if peek(cx, c) == Some(TokenView::SUB) {
            theorem_expression_goes_on(cx, step_over(cx, c));
        } else {
            theorem_expression_goes_on(cx, c);
        }
    }
}

/// An expression never goes back in its line.
pub proof fn theorem_expression_goes_on(cx: Context, c: Cursor)
    ensures
        goes_on(cx, c, expression(cx, c)),
    decreases cx.tokens.len() - c.pos, 7int,
{
    if c.pos <= cx.tokens.len() {
        theorem_term_goes_on(cx, c);
        let p = term(cx, c);
        if p.result is Ok && not_behind(cx, c, p.cursor) {
            theorem_expression_rest_goes_on(cx, p.cursor, p.result->Ok_0);
        }
    }
}

/// What follows the first term never goes back in its line.
pub proof fn theorem_expression_rest_goes_on(cx: Context, c: Cursor, left: ExprView)
    ensures
        goes_on(cx, c, expression_rest(cx, c, left)),
    decreases cx.tokens.len() - c.pos, 6int,
{
    if c.pos <= cx.tokens.len() {
        match peek(cx, c) {
            Some(t) => {
                if t is ADD || t is SUB || comparison_sign(t) is Some {
                    let op = if t is ADD {
                        "+"@
                    } else if t is SUB {
                        "-"@
                    } else {
                        comparison_sign(t)->0
                    };
                    theorem_term_goes_on(cx, step_over(cx, c));
                    let q = term(cx, step_over(cx, c));
                    if q.result is Ok && !(left is List) && !(q.result->Ok_0 is List) && ahead(
                        cx,
                        c,
                        q.cursor,
                    ) {
                        theorem_expression_rest_goes_on(
                            cx,
                            q.cursor,
                            if t is ADD || t is SUB {
                                ExprView::BinaryOp(Box::new(left), op, Box::new(q.result->Ok_0))
                            } else {
                                ExprView::Boolean(Box::new(left), op, Box::new(q.result->Ok_0))
                            },
                        );
                    }
                }
            },
            None => {},
        }
    }
}

/// A term never goes back in its line.
pub proof fn theorem_term_goes_on(cx: Context, c: Cursor)
    ensures
        goes_on(cx, c, term(cx, c)),
    decreases cx.tokens.len() - c.pos, 5int,
{
    if c.pos <= cx.tokens.len() {
        theorem_factor_goes_on(cx, c);
        let p = factor(cx, c);
        if p.result is Ok && not_behind(cx, c, p.cursor) {
            theorem_term_rest_goes_on(cx, p.cursor, p.result->Ok_0);
        }
    }
}

/// What follows the first factor never goes back in its line.
pub proof fn theorem_term_rest_goes_on(cx: Context, c: Cursor, left: ExprView)
    ensures
        goes_on(cx, c, term_rest(cx, c, left)),
    decreases cx.tokens.len() - c.pos, 4int,
{
    if c.pos <= cx.tokens.len() {
        match peek(cx, c) {
            Some(t) => {
                if t is MUL || t is DIV {
                    let c1 = step_over(cx, c);
                    if peek(cx, c1) != Some(TokenView::LIST) {
                        theorem_factor_goes_on(cx, c1);
                        let q = factor(cx, c1);
                        if q.result is Ok && !(left is List) && !(q.result->Ok_0 is List) && !(
                        t is DIV && is_literal_zero(q.result->Ok_0)) && ahead(cx, c, q.cursor) {
                            theorem_term_rest_goes_on(
                                cx,
                                q.cursor,
                                ExprView::BinaryOp(
                                    Box::new(left),
                                    if t is MUL {
                                        "*"@
                                    } else {
                                        "/"@
                                    },
                                    Box::new(q.result->Ok_0),
                                ),
                            );
                        }
                    }
                }
            },
            None => {},
        }
    }
}

/// A factor never goes back in its line.
pub proof fn theorem_factor_goes_on(cx: Context, c: Cursor)
    ensures
        goes_on(cx, c, factor(cx, c)),
    decreases cx.tokens.len() - c.pos, 3int,
{
    if c.pos <= cx.tokens.len() {
        theorem_atom_goes_on(cx, c);
        let p = atom(cx, c);
        if p.result is Ok && not_behind(cx, c, p.cursor) {
            theorem_factor_rest_goes_on(cx, p.cursor, p.result->Ok_0);
        }
    }
}

/// What follows the atom of a factor never goes back in its line.
pub proof fn theorem_factor_rest_goes_on(cx: Context, c: Cursor, base: ExprView)
    ensures
        goes_on(cx, c, factor_rest(cx, c, base)),
    decreases cx.tokens.len() - c.pos, 2int,
{
    if c.pos <= cx.tokens.len() && peek(cx, c) == Some(TokenView::POW) {
        theorem_factor_goes_on(cx, step_over(cx, c));
        let q = factor(cx, step_over(cx, c));
        if q.result is Ok && !(base is List) && !(q.result->Ok_0 is List) && ahead(
            cx,
            c,
            q.cursor,
        ) {
            theorem_factor_rest_goes_on(
                cx,
                q.cursor,
                ExprView::BinaryOp(Box::new(base), "^"@, Box::new(q.result->Ok_0)),
            );
        }
    }
}

/// An atom never goes back in its line.
pub proof fn theorem_atom_goes_on(cx: Context, c: Cursor)
    ensures
        goes_on(cx, c, atom(cx, c)),
    decreases cx.tokens.len() - c.pos, 1int,
{
    if c.pos <= cx.tokens.len() {
        match peek(cx, c) {
            Some(TokenView::LPAREN) => {
                theorem_expression_goes_on(cx, step_over(cx, c));
            },
            Some(TokenView::INT(n)) => {
                theorem_number_goes_on(cx, c, crate::grammar::reading_of(cx, TokenView::INT(n)));
            },
            Some(TokenView::REAL(n)) => {
                theorem_number_goes_on(cx, c, crate::grammar::reading_of(cx, TokenView::REAL(n)));
            },
            Some(TokenView::VAR(name)) => {
                theorem_variable_goes_on(cx, c, name);
            },
            Some(TokenView::LIST) => {
                theorem_list_goes_on(cx, c);
            },
            _ => {},
        }
    }
}

/// A number never goes back in its line.
pub proof fn theorem_number_goes_on(cx: Context, c: Cursor, reading: Option<Reading>)
    ensures
        goes_on(cx, c, number(cx, c, reading)),
    decreases cx.tokens.len() - c.pos, 0int,
{
    if c.pos <= cx.tokens.len() {
        let previous = peek(cx, c);
        let c1 = step_over(cx, c);
        let current = peek(cx, c1);
        if crate::grammar::is_number(previous) && crate::grammar::is_number(current)
            && crate::grammar::reads_negative(crate::grammar::reading_of(cx, current->0))
            && ahead(cx, c, c1) {
            theorem_number_goes_on(cx, c1, crate::grammar::reading_of(cx, previous->0));
            let p = number(cx, c1, crate::grammar::reading_of(cx, previous->0));
            if p.result is Ok && ahead(cx, c, p.cursor) {
                theorem_number_goes_on(
                    cx,
                    p.cursor,
                    crate::grammar::absolute_reading(cx, current->0),
                );
            }
        }
    }
}

/// A variable never goes back in its line.
pub proof fn theorem_variable_goes_on(cx: Context, c: Cursor, name: Seq<char>)
    ensures
        goes_on(cx, c, variable(cx, c, name)),
    decreases cx.tokens.len() - c.pos, 0int,
{
    if c.pos <= cx.tokens.len() {
        let c1 = step_over(cx, c);
        if peek(cx, c1) == Some(TokenView::LBRACKET) {
            let c2 = step_over(cx, c1);
            if ahead(cx, c, c2) {
                theorem_expression_goes_on(cx, c2);
                let p = expression(cx, c2);
                if p.result is Ok && peek(cx, p.cursor) == Some(TokenView::RBRACKET) {
                    let c3 = step_over(cx, p.cursor);
                    let c4 = step_over(cx, c3);
                    if peek(cx, c3) == Some(TokenView::ASSIGN) && ahead(cx, c, c4) {
                        theorem_expression_goes_on(cx, c4);
                    }
                }
            }
        }
    }
}

/// A list never goes back in its line.
pub proof fn theorem_list_goes_on(cx: Context, c: Cursor)
    ensures
        goes_on(cx, c, list(cx, c)),
    decreases cx.tokens.len() - c.pos, 0int,
{
    if c.pos <= cx.tokens.len() {
        let c1 = step_over(cx, c);
        let c2 = step_over(cx, c1);
        let c3 = step_over(cx, c2);
        let c4 = step_over(cx, c3);
        let c5 = step_over(cx, c4);
        if ahead(cx, c, c5) {
            theorem_expression_goes_on(cx, c5);
        }
    }
}

} // verus!
