//! The parser: tokens in, one tree or one error for each line out.
//!
//! What a line is parsed to is stated in the `grammar` module; the functions
//! here compute it. The parser keeps the table of variables from line to
//! line.
//!
//! The parser does not read real literals itself. Before a text is parsed,
//! `define_real` tells it which real number each lexeme of a real literal
//! denotes; a real literal whose lexeme it was not told is a syntax error.

use vstd::prelude::*;
use crate::ast::{Expr, ExprView, ParseError, ParseErrorView, Position};
use crate::dict::Dict;
use crate::grammar::{
    absolute_reading,
    ahead,
    assignment,
    atom,
    calculation,
    comparison_sign,
    element_target,
    element_written,
    expression,
    expression_rest,
    factor,
    factor_rest,
    fill_bits,
    filled,
    here,
    index_of,
    is_literal_zero,
    is_number,
    list,
    may_follow_number,
    minus_of,
    not_behind,
    parsed_line,
    number,
    number_tree,
    peek,
    plus,
    read_magnitude,
    reading_of,
    signed,
    step_over,
    term,
    term_rest,
    token_length,
    variable,
    whole_digits,
    whole_reading,
    with_minus,
    Context,
    Cursor,
    Parsed,
    Reading,
};
use crate::isa::word_is;
use crate::number::{bits_of_i64, flip, negative, round_whole, zero, Real};
use crate::scanner::{tokens_view, Token, TokenView};
use crate::text::{
    copy_of,
    all_digits,
    chars_of,
    digit,
    digits_value,
    is_digit,
    push_decimal_i64,
    push_str,
    read_digits,
    read_natural,
    string_of,
};

verus! {

/// The measures of tokens.
pub struct TokenInfo;

impl TokenInfo {
    /// The length that a token takes up in its line, in characters.
    pub fn token_length(token: &Token) -> (n: usize)
        ensures
            n == token_length(token@),
    {
        match token {
            Token::VAR(name) => name.as_str().unicode_len(),
            Token::INT(n) => n.as_str().unicode_len(),
            Token::REAL(n) => n.as_str().unicode_len(),
            Token::EQ => 2,
            Token::NE => 2,
            Token::LE => 2,
            Token::GE => 2,
            Token::INTDIV => 2,
            Token::LIST => 4,
            _ => 1,
        }
    }
}

/// A result with its texts as sequences of characters.
pub open spec fn result_view(r: Result<Expr, ParseError>) -> Result<ExprView, ParseErrorView> {
    match r {
        Ok(e) => Ok(e@),
        Err(e) => Err(e@),
    }
}

/// The results that a vector of results holds.
pub open spec fn results_view(v: Seq<Result<Expr, ParseError>>) -> Seq<
    Result<ExprView, ParseErrorView>,
> {
    v.map_values(|r: Result<Expr, ParseError>| result_view(r))
}

/// What a numeric lexeme denotes.
pub enum Numeral {
    Whole(bool, i64),
    Fraction(Real),
}

impl View for Numeral {
    type V = Reading;

    open spec fn view(&self) -> Reading {
        match self {
            Numeral::Whole(minus, m) => Reading::Whole(*minus, *m),
            Numeral::Fraction(x) => Reading::Fraction(x@),
        }
    }
}

spec fn numeral_view(n: Option<Numeral>) -> Option<Reading> {
    match n {
        Some(n) => Some(n@),
        None => None,
    }
}

spec fn token_view(t: Option<Token>) -> Option<TokenView> {
    match t {
        Some(t) => Some(t@),
        None => None,
    }
}

/// `a + b`, held to the range of `usize`.
pub fn add_capped(a: usize, b: usize) -> (r: usize)
    ensures
        r == plus(a, b as nat),
{
    if b > usize::MAX - a {
        usize::MAX
    } else {
        a + b
    }
}

fn to_index(n: i64) -> (r: usize)
    ensures
        r == index_of(n),
{
    #[verifier::truncate]
    (n as usize)
}

/// The digits of a whole-number lexeme, as the place at which they start.
fn digits_start(lexeme: &Vec<char>) -> (r: Option<usize>)
    ensures
        r is Some <==> whole_digits(lexeme@) is Some,
        r is Some ==> r->0 <= lexeme.len() && whole_digits(lexeme@)->0 == lexeme@.skip(
            r->0 as int,
        ) && (r->0 == 1 <==> lexeme@[0] == '-') && r->0 <= 1,
{
    let from: usize = if lexeme.len() > 0 && lexeme[0] == '-' {
        1
    } else {
        0
    };
    let ghost d = lexeme@.skip(from as int);
    if from >= lexeme.len() {
        return None;
    }
    let mut i: usize = from;
    while i < lexeme.len()
        invariant
            from <= i <= lexeme.len(),
            from <= 1,
            from == 1 <==> (lexeme.len() > 0 && lexeme@[0] == '-'),
            d == lexeme@.skip(from as int),
            forall|j: int| 0 <= j < i - from ==> is_digit(#[trigger] d[j]),
        decreases lexeme.len() - i,
    {
        if !digit(lexeme[i]) {
            assert(d[i - from] == lexeme@[i as int]);
            assert(!all_digits(d));
            assert(lexeme@.skip(0) == lexeme@);
            return None;
        }
        assert(d[i - from] == lexeme@[i as int]);
        i += 1;
    }
    if from == 0 {
        assert(lexeme@.skip(0) == lexeme@);
    }
    Some(from)
}

/// The magnitude that the digits `lexeme[from..]` are read as.
fn magnitude_of(lexeme: &Vec<char>, from: usize) -> (r: (i64, bool))
    requires
        from < lexeme.len(),
        all_digits(lexeme@.skip(from as int)),
    ensures
        r.0 == read_magnitude(digits_value(lexeme@.skip(from as int))),
        r.1 == (digits_value(lexeme@.skip(from as int)) != 0),
{
    match read_digits(lexeme, from, 0x8000_0000_0000_0000) {
        Some(v) => {
            let (_, value) = round_whole(v as u64);
            if value > i64::MAX as u64 {
                (i64::MAX, v != 0)
            } else {
                (value as i64, v != 0)
            }
        },
        None => (i64::MAX, true),
    }
}

fn read_whole(lexeme: &String) -> (r: Option<Numeral>)
    ensures
        numeral_view(r) == whole_reading(lexeme@),
{
    let v = chars_of(lexeme.as_str());
    match digits_start(&v) {
        Some(from) => {
            let (m, nonzero) = magnitude_of(&v, from);
            Some(Numeral::Whole(from == 1 && nonzero, m))
        },
        None => None,
    }
}

fn is_numeric(t: &Option<Token>) -> (r: bool)
    ensures
        r == is_number(token_view(*t)),
{
    match t {
        Some(Token::INT(_)) => true,
        Some(Token::REAL(_)) => true,
        _ => false,
    }
}

fn follows_number(t: &Token) -> (r: bool)
    ensures
        r == may_follow_number(t@),
{
    match t {
        Token::ADD => true,
        Token::SUB => true,
        Token::MUL => true,
        Token::DIV => true,
        Token::INTDIV => true,
        Token::POW => true,
        Token::EQ => true,
        Token::NE => true,
        Token::GT => true,
        Token::LT => true,
        Token::GE => true,
        Token::LE => true,
        Token::LPAREN => true,
        Token::RPAREN => true,
        Token::RBRACKET => true,
        _ => false,
    }
}

fn sign_of_comparison(t: &Token) -> (r: Option<String>)
    ensures
        match r {
            Some(s) => comparison_sign(t@) == Some(s@),
            None => comparison_sign(t@) is None,
        },
{
    match t {
        Token::EQ => Some(String::from_str("==")),
        Token::NE => Some(String::from_str("!=")),
        Token::GT => Some(String::from_str(">")),
        Token::LT => Some(String::from_str("<")),
        Token::GE => Some(String::from_str(">=")),
        Token::LE => Some(String::from_str("<=")),
        _ => None,
    }
}

fn minus(e: Expr) -> (r: Expr)
    ensures
        r@ == minus_of(e@),
{
    Expr::UnaryOp(String::from_str("-"), Box::new(e))
}

fn tree_of(n: Numeral) -> (r: Expr)
    ensures
        r@ == number_tree(n@),
{
    match n {
        Numeral::Whole(negated, m) => {
            if negated {
                minus(Expr::Int(m))
            } else {
                Expr::Int(m)
            }
        },
        Numeral::Fraction(x) => {
            if negative(x.bits) {
                minus(Expr::Float(x.abs()))
            } else {
                Expr::Float(x)
            }
        },
    }
}

fn put_minus(e: Expr) -> (r: Expr)
    ensures
        r@ == with_minus(e@),
{
    match e {
        Expr::Variable(name) => minus(Expr::Variable(name)),
        Expr::Boolean(l, op, r) => {
            let left_is_variable = match &*l {
                Expr::Variable(_) => true,
                _ => false,
            };
            if left_is_variable {
                Expr::Boolean(Box::new(minus(*l)), op, r)
            } else {
                Expr::Boolean(l, op, r)
            }
        },
        other => minus(other),
    }
}

fn literal_zero(e: &Expr) -> (r: bool)
    ensures
        r == is_literal_zero(e@),
{
    match e {
        Expr::Float(x) => zero(x.bits),
        Expr::Int(n) => *n == 0,
        _ => false,
    }
}

fn is_list(e: &Expr) -> (r: bool)
    ensures
        r == (e@ is List),
{
    match e {
        Expr::List(_) => true,
        _ => false,
    }
}

fn bits_to_fill(e: &Expr) -> (r: Option<u64>)
    ensures
        r == fill_bits(e@),
{
    proof {
        reveal_with_fuel(crate::ast::tree, 3);
    }
    match e {
        Expr::Int(n) => Some(bits_of_i64(*n)),
        Expr::Float(x) => Some(x.bits),
        Expr::UnaryOp(op, inner) => {
            let plain = match &**inner {
                Expr::Int(n) => Some(bits_of_i64(*n)),
                Expr::Float(x) => Some(x.bits),
                _ => None,
            };
            match plain {
                Some(b) => {
                    if word_is(op, "-") {
                        Some(flip(b))
                    } else {
                        Some(b)
                    }
                },
                None => None,
            }
        },
        _ => None,
    }
}

fn make_filled(size: usize, bits: u64) -> (r: Vec<u64>)
    ensures
        r@ == filled(size, bits),
{
    let mut r: Vec<u64> = Vec::new();
    let mut i: usize = 0;
    while i < size
        invariant
            i <= size,
            r@ == filled(i, bits),
        decreases size - i,
    {
        r.push(bits);
        assert(r@ =~= filled((i + 1) as usize, bits));
        i += 1;
    }
    r
}

fn target_of(name: &String, index: i64) -> (r: String)
    ensures
        r@ == element_target(name@, index),
{
    let mut out: Vec<char> = chars_of(name.as_str());
    push_str(&mut out, "[(");
    push_decimal_i64(&mut out, index);
    push_str(&mut out, ")]");
    string_of(&out)
}

/// The parser.
pub struct Parser {
    tokens: Vec<Token>,
    pos: usize,
    variables: Dict<Expr>,
    current_line: usize,
    current_column: usize,
    token_positions: Vec<usize>,
    reals: Dict<Real>,
}

impl Parser {
    /// The line that the parser works on.
    pub closed spec fn context(&self) -> Context {
        Context {
            tokens: tokens_view(self.tokens@),
            positions: self.token_positions@,
            line: self.current_line,
            reals: self.reals.map(),
        }
    }

    /// The place that the parser has reached.
    pub closed spec fn cursor(&self) -> Cursor {
        Cursor {
            pos: self.pos as nat,
            column: self.current_column,
            variables: self.variables.map(),
        }
    }

    /// The place reached together with a result.
    pub open spec fn parsed(&self, r: Result<Expr, ParseError>) -> Parsed {
        Parsed { cursor: self.cursor(), result: result_view(r) }
    }

    /// Whether the parser stands inside its line or at its end.
    pub open spec fn wf(&self) -> bool {
        self.cursor().pos <= self.context().tokens.len()
    }

    /// Whether the parser has gone on in the same line.
    pub open spec fn follows(&self, before: &Parser) -> bool {
        &&& self.context() == before.context()
        &&& not_behind(before.context(), before.cursor(), self.cursor())
    }

    /// A parser at the start of the line `tokens`, which is line 1, with no
    /// variable assigned and no real literal known.
    pub fn new(tokens: Vec<Token>) -> (p: Self)
        ensures
            p.wf(),
            p.context() == (Context {
                tokens: tokens_view(tokens@),
                positions: Seq::empty(),
                line: 1,
                reals: Map::empty(),
            }),
            p.cursor() == (Cursor { pos: 0, column: 1, variables: Map::empty() }),
    {
        Parser {
            tokens,
            pos: 0,
            variables: Dict::new(),
            current_line: 1,
            current_column: 1,
            token_positions: Vec::new(),
            reals: Dict::new(),
        }
    }

    /// Tells the parser which real number the lexeme of a real literal
    /// denotes.
    pub fn define_real(&mut self, lexeme: String, value: Real)
        ensures
            final(self).cursor() == old(self).cursor(),
            final(self).context() == (Context {
                reals: old(self).context().reals.insert(lexeme@, value@),
                ..old(self).context()
            }),
    {
        self.reals.insert(lexeme, value);
    }

    fn peek(&self) -> (r: Option<Token>)
        ensures
            token_view(r) == peek(self.context(), self.cursor()),
    {
        if self.pos < self.tokens.len() {
            Some(self.tokens[self.pos].copy())
        } else {
            None
        }
    }

    fn peek_at(&self, i: usize) -> (r: Option<Token>)
        ensures
            token_view(r) == (if i < self.context().tokens.len() {
                Some(self.context().tokens[i as int])
            } else {
                None
            }),
    {
        if i < self.tokens.len() {
            Some(self.tokens[i].copy())
        } else {
            None
        }
    }

    fn consume(&mut self) -> (r: Option<Token>)
        requires
            old(self).wf(),
        ensures
            final(self).wf(),
            final(self).follows(old(self)),
            final(self).cursor() == step_over(old(self).context(), old(self).cursor()),
            token_view(r) == peek(old(self).context(), old(self).cursor()),
            r is Some ==> ahead(old(self).context(), old(self).cursor(), final(self).cursor()),
    {
        if self.pos < self.tokens.len() {
            let token = self.tokens[self.pos].copy();
            self.pos += 1;
            self.current_column = add_capped(
                self.current_column,
                TokenInfo::token_length(&token),
            );
            if self.pos < self.tokens.len() {
                self.current_column = add_capped(self.current_column, 1);
            }
            Some(token)
        } else {
            None
        }
    }

    fn get_current_position(&self) -> (r: Position)
        ensures
            r == here(self.context(), self.cursor()),
    {
        Position {
            line: self.current_line,
            column: if self.pos > 0 && self.pos <= self.token_positions.len() {
                self.token_positions[self.pos - 1]
            } else if self.token_positions.len() > 0 {
                self.token_positions[0]
            } else {
                self.current_column
            },
        }
    }

    fn syntax<T>(&self) -> (r: Result<T, ParseError>)
        ensures
            r is Err,
            r->Err_0@ == ParseErrorView::SyntaxError(here(self.context(), self.cursor())),
    {
        Err(ParseError::SyntaxError(self.get_current_position()))
    }

    fn read_token(&self, t: &Token) -> (r: Option<Numeral>)
        ensures
            numeral_view(r) == reading_of(self.context(), t@),
    {
        match t {
            Token::INT(lexeme) => read_whole(lexeme),
            Token::REAL(lexeme) => match self.reals.get(lexeme) {
                Some(x) => Some(Numeral::Fraction(x.copy())),
                None => None,
            },
            _ => None,
        }
    }

    fn read_absolute(&self, t: &Token) -> (r: Option<Numeral>)
        ensures
            numeral_view(r) == absolute_reading(self.context(), t@),
    {
        match t {
            Token::INT(lexeme) => {
                let v = chars_of(lexeme.as_str());
                match digits_start(&v) {
                    Some(from) => {
                        match read_digits(&v, from, 0x7fff_ffff_ffff_ffff) {
                            Some(_) => {
                                let (m, _) = magnitude_of(&v, from);
                                Some(Numeral::Whole(false, m))
                            },
                            None => None,
                        }
                    },
                    None => None,
                }
            },
            Token::REAL(lexeme) => match self.reals.get(lexeme) {
                Some(x) => Some(Numeral::Fraction(x.abs())),
                None => None,
            },
            _ => None,
        }
    }

    /// Puts the parser at the start of a line of which the columns of the
    /// tokens are known. The table of variables stays.
    pub fn setup_line_parsing(
        &mut self,
        line_tokens: Vec<Token>,
        positions: Vec<usize>,
        line_number: usize,
    )
        ensures
            final(self).wf(),
            final(self).context() == (Context {
                tokens: tokens_view(line_tokens@),
                positions: positions@,
                line: line_number,
                reals: old(self).context().reals,
            }),
            final(self).cursor() == (Cursor {
                pos: 0,
                column: 1,
                variables: old(self).cursor().variables,
            }),
    {
        self.tokens = line_tokens;
        self.token_positions = positions;
        self.pos = 0;
        self.current_line = line_number;
        self.current_column = 1;
    }

    /// Puts the parser at the start of another line of tokens. The table of
    /// variables, the running column count and what is known of lines and
    /// columns stay.
    pub fn restart(&mut self, line_tokens: Vec<Token>)
        ensures
            final(self).wf(),
            final(self).context() == (Context {
                tokens: tokens_view(line_tokens@),
                ..old(self).context()
            }),
            final(self).cursor() == (Cursor { pos: 0, ..old(self).cursor() }),
    {
        self.tokens = line_tokens;
        self.pos = 0;
    }

    /// Whether a name and an equals sign come next.
    fn at_assignment(&self) -> (r: bool)
        ensures
            r == (peek(self.context(), self.cursor()) is Some && peek(
                self.context(),
                self.cursor(),
            )->0 is VAR && self.cursor().pos + 1 < self.context().tokens.len()
                && self.context().tokens[self.cursor().pos as int + 1] is ASSIGN),
    {
        let first = self.peek();
        let second = if self.pos < self.tokens.len() {
            self.peek_at(self.pos + 1)
        } else {
            None
        };
        match (&first, &second) {
            (Some(Token::VAR(_)), Some(Token::ASSIGN)) => true,
            _ => false,
        }
    }

    /// Parses the line from the place reached.
    pub fn parse(&mut self) -> (r: Result<Expr, ParseError>)
        requires
            old(self).wf(),
        ensures
            final(self).wf(),
            final(self).follows(old(self)),
            final(self).parsed(r) == parsed_line(old(self).context(), old(self).cursor()),
    {
        proof {
            reveal(parsed_line);
        }
        self.parse_calculation()
    }

    #[verifier::rlimit(80)]
    fn parse_calculation(&mut self) -> (r: Result<Expr, ParseError>)
        requires
            old(self).wf(),
        ensures
            final(self).wf(),
            final(self).follows(old(self)),
            final(self).parsed(r) == calculation(old(self).context(), old(self).cursor()),
        decreases old(self).context().tokens.len() - old(self).cursor().pos, 9int,
    {
        let ghost cx = self.context();
        let ghost c = self.cursor();
        let starts_assignment = self.at_assignment();
        if starts_assignment {
            return self.parse_assignment();
        }
        let left = match self.parse_boolean() {
            Ok(e) => e,
            Err(e) => {
                return Err(e);
            },
        };
        let ghost p = signed(cx, c);
        assert(p == Parsed { cursor: self.cursor(), result: Ok(left@) });
        let op = match self.peek() {
            Some(t) => sign_of_comparison(&t),
            None => None,
        };
        match op {
            Some(op) => {
                self.consume();
                assert(ahead(cx, c, self.cursor()));
                match self.parse_expression() {
                    Ok(right) => Ok(Expr::Boolean(Box::new(left), op, Box::new(right))),
                    Err(e) => Err(e),
                }
            },
            None => Ok(left),
        }
    }

    fn parse_assignment(&mut self) -> (r: Result<Expr, ParseError>)
        requires
            old(self).wf(),
        ensures
            final(self).wf(),
            final(self).follows(old(self)),
            final(self).parsed(r) == assignment(old(self).context(), old(self).cursor()),
        decreases old(self).context().tokens.len() - old(self).cursor().pos, 8int,
    {
        let name = match self.consume() {
            Some(Token::VAR(name)) => name,
            _ => {
                return self.syntax();
            },
        };
        match self.peek() {
            Some(Token::ASSIGN) => {},
            _ => {
                return self.syntax();
            },
        }
        self.consume();
        let value = match self.parse_expression() {
            Ok(e) => e,
            Err(e) => {
                return Err(e);
            },
        };
        let empty_list = match &value {
            Expr::List(l) => l.len() == 0,
            _ => false,
        };
        if empty_list {
            return self.syntax();
        }
        self.variables.insert(name.clone(), value.copy());
        Ok(Expr::Assignment(name, Box::new(value)))
    }

    fn parse_boolean(&mut self) -> (r: Result<Expr, ParseError>)
        requires
            old(self).wf(),
        ensures
            final(self).wf(),
            final(self).follows(old(self)),
            final(self).parsed(r) == signed(old(self).context(), old(self).cursor()),
        decreases old(self).context().tokens.len() - old(self).cursor().pos, 8int,
    {
        let is_negative = match self.peek() {
            Some(Token::SUB) => true,
            _ => false,
        };
        if is_negative {
            self.consume();
            match self.parse_expression() {
                Ok(e) => Ok(put_minus(e)),
                Err(e) => Err(e),
            }
        } else {
            self.parse_expression()
        }
    }

    fn parse_expression(&mut self) -> (r: Result<Expr, ParseError>)
        requires
            old(self).wf(),
        ensures
            final(self).wf(),
            final(self).follows(old(self)),
            final(self).parsed(r) == expression(old(self).context(), old(self).cursor()),
        decreases old(self).context().tokens.len() - old(self).cursor().pos, 7int,
    {
        match self.parse_term() {
            Ok(left) => self.parse_expression_rest(left),
            Err(e) => Err(e),
        }
    }

    fn parse_expression_rest(&mut self, left: Expr) -> (r: Result<Expr, ParseError>)
        requires
            old(self).wf(),
        ensures
            final(self).wf(),
            final(self).follows(old(self)),
            final(self).parsed(r) == expression_rest(
                old(self).context(),
                old(self).cursor(),
                left@,
            ),
        decreases old(self).context().tokens.len() - old(self).cursor().pos, 6int,
    {
        let t = match self.peek() {
            Some(t) => t,
            None => {
                return Ok(left);
            },
        };
        let arithmetic = match &t {
            Token::ADD => true,
            Token::SUB => true,
            _ => false,
        };
        let op = match &t {
            Token::ADD => Some(String::from_str("+")),
            Token::SUB => Some(String::from_str("-")),
            other => sign_of_comparison(other),
        };
        let op = match op {
            Some(op) => op,
            None => {
                return Ok(left);
            },
        };
        self.consume();
        let right = match self.parse_term() {
            Ok(e) => e,
            Err(e) => {
                return Err(e);
            },
        };
        if is_list(&left) || is_list(&right) {
            return self.syntax();
        }
        let joined = if arithmetic {
            Expr::BinaryOp(Box::new(left), op, Box::new(right))
        } else {
            Expr::Boolean(Box::new(left), op, Box::new(right))
        };
        self.parse_expression_rest(joined)
    }

    fn parse_term(&mut self) -> (r: Result<Expr, ParseError>)
        requires
            old(self).wf(),
        ensures
            final(self).wf(),
            final(self).follows(old(self)),
            final(self).parsed(r) == term(old(self).context(), old(self).cursor()),
        decreases old(self).context().tokens.len() - old(self).cursor().pos, 5int,
    {
        match self.parse_factor() {
            Ok(left) => self.parse_term_rest(left),
            Err(e) => Err(e),
        }
    }

    fn parse_term_rest(&mut self, left: Expr) -> (r: Result<Expr, ParseError>)
        requires
            old(self).wf(),
        ensures
            final(self).wf(),
            final(self).follows(old(self)),
            final(self).parsed(r) == term_rest(old(self).context(), old(self).cursor(), left@),
        decreases old(self).context().tokens.len() - old(self).cursor().pos, 4int,
    {
        let is_mul = match self.peek() {
            Some(Token::MUL) => true,
            Some(Token::DIV) => false,
            _ => {
                return Ok(left);
            },
        };
        self.consume();
        match self.peek() {
            Some(Token::LIST) => {
                return self.syntax();
            },
            _ => {},
        }
        let right = match self.parse_factor() {
            Ok(e) => e,
            Err(e) => {
                return Err(e);
            },
        };
        if is_list(&left) || is_list(&right) {
            return self.syntax();
        }
        if !is_mul && literal_zero(&right) {
            return Err(ParseError::DivisionByZero(self.get_current_position()));
        }
        let op = if is_mul {
            String::from_str("*")
        } else {
            String::from_str("/")
        };
        self.parse_term_rest(Expr::BinaryOp(Box::new(left), op, Box::new(right)))
    }

    fn parse_factor(&mut self) -> (r: Result<Expr, ParseError>)
        requires
            old(self).wf(),
        ensures
            final(self).wf(),
            final(self).follows(old(self)),
            final(self).parsed(r) == factor(old(self).context(), old(self).cursor()),
        decreases old(self).context().tokens.len() - old(self).cursor().pos, 3int,
    {
        match self.parse_atom() {
            Ok(base) => self.parse_factor_rest(base),
            Err(e) => Err(e),
        }
    }

    fn parse_factor_rest(&mut self, base: Expr) -> (r: Result<Expr, ParseError>)
        requires
            old(self).wf(),
        ensures
            final(self).wf(),
            final(self).follows(old(self)),
            final(self).parsed(r) == factor_rest(old(self).context(), old(self).cursor(), base@),
        decreases old(self).context().tokens.len() - old(self).cursor().pos, 2int,
    {
        match self.peek() {
            Some(Token::POW) => {},
            _ => {
                return Ok(base);
            },
        }
        self.consume();
        let right = match self.parse_factor() {
            Ok(e) => e,
            Err(e) => {
                return Err(e);
            },
        };
        if is_list(&base) || is_list(&right) {
            return self.syntax();
        }
        self.parse_factor_rest(
            Expr::BinaryOp(Box::new(base), String::from_str("^"), Box::new(right)),
        )
    }

    fn parse_atom(&mut self) -> (r: Result<Expr, ParseError>)
        requires
            old(self).wf(),
        ensures
            final(self).wf(),
            final(self).follows(old(self)),
            final(self).parsed(r) == atom(old(self).context(), old(self).cursor()),
        decreases old(self).context().tokens.len() - old(self).cursor().pos, 1int,
    {
        match self.peek() {
            Some(Token::LPAREN) => {
                self.consume();
                let e = match self.parse_expression() {
                    Ok(e) => e,
                    Err(e) => {
                        return Err(e);
                    },
                };
                match self.peek() {
                    Some(Token::RPAREN) => {
                        self.consume();
                        Ok(e)
                    },
                    _ => self.syntax(),
                }
            },
            Some(Token::INT(n)) => {
                let reading = self.read_token(&Token::INT(n));
                self.parse_number(reading)
            },
            Some(Token::REAL(n)) => {
                let reading = self.read_token(&Token::REAL(n));
                self.parse_number(reading)
            },
            Some(Token::VAR(name)) => self.parse_variable(name),
            Some(Token::LIST) => self.parse_list(),
            Some(Token::ERR) => self.syntax(),
            _ => Err(ParseError::InvalidAtom(self.get_current_position())),
        }
    }

    fn parse_number(&mut self, reading: Option<Numeral>) -> (r: Result<Expr, ParseError>)
        requires
            old(self).wf(),
        ensures
            final(self).wf(),
            final(self).follows(old(self)),
            final(self).parsed(r) == number(
                old(self).context(),
                old(self).cursor(),
                numeral_view(reading),
            ),
        decreases old(self).context().tokens.len() - old(self).cursor().pos, 0int,
    {
        let previous = self.consume();
        let current = self.peek();
        let current_is_negative = match &current {
            Some(t) => match self.read_token(t) {
                Some(Numeral::Whole(negated, _)) => negated,
                Some(Numeral::Fraction(x)) => negative(x.bits),
                None => false,
            },
            None => false,
        };
        if is_numeric(&previous) && is_numeric(&current) && current_is_negative {
            let first_reading = match &previous {
                Some(t) => self.read_token(t),
                None => None,
            };
            let second_reading = match &current {
                Some(t) => self.read_absolute(t),
                None => None,
            };
            let first = match self.parse_number(first_reading) {
                Ok(e) => e,
                Err(e) => {
                    return Err(e);
                },
            };
            let second = match self.parse_number(second_reading) {
                Ok(e) => e,
                Err(e) => {
                    return Err(e);
                },
            };
            Ok(Expr::BinaryOp(Box::new(first), String::from_str("-"), Box::new(second)))
        } else {
            let allowed = match &current {
                Some(t) => follows_number(t),
                None => true,
            };
            if !allowed {
                return self.syntax();
            }
            match reading {
                Some(n) => Ok(tree_of(n)),
                None => self.syntax(),
            }
        }
    }

    /// Writes a value into an element of a list in the table of variables.
    fn write_element(&mut self, name: &String, index: usize, value: &Expr) -> (r: bool)
        requires
            old(self).wf(),
        ensures
            final(self).wf(),
            final(self).context() == old(self).context(),
            r == element_written(old(self).cursor().variables, name@, index, value@) is Some,
            r ==> final(self).cursor() == (Cursor {
                variables: element_written(
                    old(self).cursor().variables,
                    name@,
                    index,
                    value@,
                )->0,
                ..old(self).cursor()
            }),
            !r ==> final(self).cursor() == old(self).cursor(),
    {
        proof {
            reveal_with_fuel(crate::ast::tree, 3);
        }
        let target: Option<Vec<u64>> = match self.variables.get(name) {
            Some(Expr::List(l)) => Some(copy_of(l)),
            _ => None,
        };
        let bits: Option<u64> = match value {
            Expr::Int(n) => Some(bits_of_i64(*n)),
            Expr::Float(x) => Some(x.bits),
            Expr::ListAccess(other, at) => {
                let source: Vec<u64> = match self.variables.get(other) {
                    Some(Expr::List(l)) => copy_of(l),
                    _ => {
                        return false;
                    },
                };
                match (&target, &**at) {
                    (Some(l), Expr::Int(i)) => {
                        let from = to_index(*i);
                        if index < l.len() && from < source.len() {
                            Some(source[from])
                        } else {
                            return true;
                        }
                    },
                    (Some(_), _) => {
                        return false;
                    },
                    (None, _) => {
                        return true;
                    },
                }
            },
            _ => {
                return false;
            },
        };
        match (target, bits) {
            (Some(l), Some(b)) => {
                if index < l.len() {
                    let mut updated = l;
                    updated.set(index, b);
                    self.variables.insert(name.clone(), Expr::List(updated));
                }
            },
            _ => {},
        }
        true
    }

    #[verifier::rlimit(80)]
    fn parse_variable(&mut self, name: String) -> (r: Result<Expr, ParseError>)
        requires
            old(self).wf(),
        ensures
            final(self).wf(),
            final(self).follows(old(self)),
            final(self).parsed(r) == variable(old(self).context(), old(self).cursor(), name@),
        decreases old(self).context().tokens.len() - old(self).cursor().pos, 0int,
    {
        proof {
            reveal_with_fuel(crate::ast::tree, 2);
        }
        self.consume();
        match self.peek() {
            Some(Token::LBRACKET) => {},
            _ => {
                if !self.variables.contains_key(&name) {
                    return Err(
                        ParseError::UndefinedVariable(name, self.get_current_position()),
                    );
                }
                return Ok(Expr::Variable(name));
            },
        }
        self.consume();
        let index = match self.parse_expression() {
            Ok(e) => e,
            Err(e) => {
                return Err(e);
            },
        };
        match self.peek() {
            Some(Token::RBRACKET) => {},
            _ => {
                return self.syntax();
            },
        }
        self.consume();
        let length: usize = match self.variables.get(&name) {
            None => {
                return Err(ParseError::UndefinedVariable(name, self.get_current_position()));
            },
            Some(Expr::List(l)) => l.len(),
            Some(_) => {
                return self.syntax();
            },
        };
        let n: i64 = match &index {
            Expr::Int(n) => *n,
            _ => {
                return self.syntax();
            },
        };
        let i = to_index(n);
        if i >= length {
            return Err(ParseError::IndexOutOfRange(self.get_current_position(), i));
        }
        match self.peek() {
            Some(Token::ASSIGN) => {},
            _ => {
                return Ok(Expr::ListAccess(name, Box::new(index)));
            },
        }
        self.consume();
        let value = match self.parse_expression() {
            Ok(e) => e,
            Err(e) => {
                return Err(e);
            },
        };
        if self.write_element(&name, i, &value) {
            Ok(Expr::Assignment(target_of(&name, n), Box::new(value)))
        } else {
            self.syntax()
        }
    }

    #[verifier::rlimit(80)]
    fn parse_list(&mut self) -> (r: Result<Expr, ParseError>)
        requires
            old(self).wf(),
        ensures
            final(self).wf(),
            final(self).follows(old(self)),
            final(self).parsed(r) == list(old(self).context(), old(self).cursor()),
        decreases old(self).context().tokens.len() - old(self).cursor().pos, 0int,
    {
        proof {
            reveal_with_fuel(crate::ast::tree, 2);
        }
        self.consume();
        match self.peek() {
            Some(Token::LBRACKET) => {},
            _ => {
                return self.syntax();
            },
        }
        self.consume();
        match self.peek() {
            Some(Token::RBRACKET) => {
                return Err(ParseError::MissingIndex(self.get_current_position()));
            },
            _ => {},
        }
        let size: usize = match self.consume() {
            Some(Token::INT(lexeme)) => {
                let v = chars_of(lexeme.as_str());
                match read_natural(&v, usize::MAX as u128) {
                    Some(s) => {
                        if s == 0 {
                            return self.syntax();
                        }
                        s as usize
                    },
                    None => {
                        return self.syntax();
                    },
                }
            },
            _ => {
                return self.syntax();
            },
        };
        match self.peek() {
            Some(Token::RBRACKET) => {},
            _ => {
                return self.syntax();
            },
        }
        self.consume();
        match self.peek() {
            Some(Token::ASSIGN) => {},
            _ => {
                return Ok(Expr::List(make_filled(size, 0)));
            },
        }
        self.consume();
        let next = self.peek();
        match next {
            Some(Token::INT(_)) | Some(Token::REAL(_)) => {
                let value = match self.parse_expression() {
                    Ok(e) => e,
                    Err(e) => {
                        return Err(e);
                    },
                };
                match bits_to_fill(&value) {
                    Some(bits) => Ok(Expr::List(make_filled(size, bits))),
                    None => self.syntax(),
                }
            },
            Some(Token::VAR(_)) => {
                let value = match self.parse_expression() {
                    Ok(e) => e,
                    Err(e) => {
                        return Err(e);
                    },
                };
                match value {
                    Expr::Variable(name) => {
                        let source: Option<Vec<u64>> = match self.variables.get(&name) {
                            Some(Expr::List(l)) => Some(copy_of(l)),
                            _ => None,
                        };
                        match source {
                            Some(l) => {
                                if l.len() == size {
                                    Ok(Expr::List(l))
                                } else {
                                    self.syntax()
                                }
                            },
                            None => self.syntax(),
                        }
                    },
                    _ => self.syntax(),
                }
            },
            Some(Token::LIST) => {
                let value = match self.parse_expression() {
                    Ok(e) => e,
                    Err(e) => {
                        return Err(e);
                    },
                };
                match value {
                    Expr::List(l) => {
                        if l.len() == size {
                            Ok(Expr::List(l))
                        } else {
                            self.syntax()
                        }
                    },
                    _ => self.syntax(),
                }
            },
            _ => self.syntax(),
        }
    }
}

} // verus!
