//! The scanner: source text in, tokens out.
//!
//! At each place the scanner takes the longest text that is a token. A run of
//! white space is passed over, but for a single line feed that stands alone,
//! which is the `NEWLINE` token. A character that starts no token is the
//! token `ERR`. A number may begin with a minus sign, so `1-2` is two
//! numbers and `1 - 2` two numbers and a minus sign between them.
//!
//! A minus sign that stands directly before a digit is therefore never a
//! token of its own. `-1 + -2` is the three tokens `-1`, `+` and `-2`;
//! `x = -1` ends in the one token `-1`; and no text gives the minus sign
//! `SUB` followed at once by the digits of an `INT` or a `REAL`. A reading
//! in which `-1` is a `SUB` and an `INT` 1 is not the one made here: the
//! parser takes a negative number from one token, and tells `x -3` from
//! `x - 3` by it.

use vstd::prelude::*;
use crate::text::{
    chars_of,
    is_digit,
    is_space,
    digit,
    lines,
    push_str,
    space,
    split_lines,
    string_of,
    string_of_range,
    texts,
};

verus! {

/// A token. A number and a name keep the text they were read from.
#[allow(non_camel_case_types)]
#[derive(Debug, Clone, PartialEq)]
pub enum Token {
    REAL(String),
    INT(String),
    VAR(String),
    ADD,
    SUB,
    MUL,
    DIV,
    INTDIV,
    POW,
    LPAREN,
    RPAREN,
    LBRACKET,
    RBRACKET,
    EQ,
    NE,
    LE,
    GE,
    LT,
    GT,
    ASSIGN,
    LIST,
    WHITESPACE,
    NEWLINE,
    ERR,
}

/// A token with its text as a sequence of characters.
pub enum TokenView {
    REAL(Seq<char>),
    INT(Seq<char>),
    VAR(Seq<char>),
    ADD,
    SUB,
    MUL,
    DIV,
    INTDIV,
    POW,
    LPAREN,
    RPAREN,
    LBRACKET,
    RBRACKET,
    EQ,
    NE,
    LE,
    GE,
    LT,
    GT,
    ASSIGN,
    LIST,
    WHITESPACE,
    NEWLINE,
    ERR,
}

impl View for Token {
    type V = TokenView;

    open spec fn view(&self) -> TokenView {
        match self {
            Token::REAL(s) => TokenView::REAL(s@),
            Token::INT(s) => TokenView::INT(s@),
            Token::VAR(s) => TokenView::VAR(s@),
            Token::ADD => TokenView::ADD,
            Token::SUB => TokenView::SUB,
            Token::MUL => TokenView::MUL,
            Token::DIV => TokenView::DIV,
            Token::INTDIV => TokenView::INTDIV,
            Token::POW => TokenView::POW,
            Token::LPAREN => TokenView::LPAREN,
            Token::RPAREN => TokenView::RPAREN,
            Token::LBRACKET => TokenView::LBRACKET,
            Token::RBRACKET => TokenView::RBRACKET,
            Token::EQ => TokenView::EQ,
            Token::NE => TokenView::NE,
            Token::LE => TokenView::LE,
            Token::GE => TokenView::GE,
            Token::LT => TokenView::LT,
            Token::GT => TokenView::GT,
            Token::ASSIGN => TokenView::ASSIGN,
            Token::LIST => TokenView::LIST,
            Token::WHITESPACE => TokenView::WHITESPACE,
            Token::NEWLINE => TokenView::NEWLINE,
            Token::ERR => TokenView::ERR,
        }
    }
}

/// The text of a token as it is shown: the lexeme of a number or a name, the
/// sign of an operator.
pub open spec fn token_text(t: TokenView) -> Seq<char> {
    match t {
        TokenView::REAL(s) => s,
        TokenView::INT(s) => s,
        TokenView::VAR(s) => s,
        TokenView::ADD => "+"@,
        TokenView::SUB => "-"@,
        TokenView::MUL => "*"@,
        TokenView::DIV => "/"@,
        TokenView::INTDIV => "//"@,
        TokenView::POW => "^"@,
        TokenView::LPAREN => "("@,
        TokenView::RPAREN => ")"@,
        TokenView::LBRACKET => "["@,
        TokenView::RBRACKET => "]"@,
        TokenView::EQ => "=="@,
        TokenView::NE => "!="@,
        TokenView::LE => "<="@,
        TokenView::GE => ">="@,
        TokenView::LT => "<"@,
        TokenView::GT => ">"@,
        TokenView::ASSIGN => "="@,
        TokenView::LIST => "list"@,
        TokenView::WHITESPACE => "<whitespace>"@,
        TokenView::ERR => "<error>"@,
        TokenView::NEWLINE => "<newline>"@,
    }
}

/// The name of a token's kind in the scanner's report.
pub open spec fn kind_name(t: TokenView) -> Seq<char> {
    match t {
        TokenView::REAL(_) => "REAL"@,
        TokenView::INT(_) => "INT"@,
        TokenView::VAR(_) => "VAR"@,
        TokenView::ADD => "+"@,
        TokenView::SUB => "-"@,
        TokenView::MUL => "*"@,
        TokenView::DIV => "/"@,
        TokenView::INTDIV => "//"@,
        TokenView::POW => "POW"@,
        TokenView::LPAREN => "LPAREN"@,
        TokenView::RPAREN => "RPAREN"@,
        TokenView::LBRACKET => "LBRACKET"@,
        TokenView::RBRACKET => "RBRACKET"@,
        TokenView::EQ => "=="@,
        TokenView::NE => "!="@,
        TokenView::LT => "<"@,
        TokenView::GT => ">"@,
        TokenView::LE => "<="@,
        TokenView::GE => ">="@,
        TokenView::ASSIGN => "="@,
        TokenView::LIST => "list"@,
        TokenView::ERR => "ERR"@,
        _ => "UNKNOWN"@,
    }
}

impl Token {
    /// The same token once more.
    pub fn copy(&self) -> (r: Token)
        ensures
            r@ == self@,
    {
        match self {
            Token::REAL(s) => Token::REAL(s.clone()),
            Token::INT(s) => Token::INT(s.clone()),
            Token::VAR(s) => Token::VAR(s.clone()),
            Token::ADD => Token::ADD,
            Token::SUB => Token::SUB,
            Token::MUL => Token::MUL,
            Token::DIV => Token::DIV,
            Token::INTDIV => Token::INTDIV,
            Token::POW => Token::POW,
            Token::LPAREN => Token::LPAREN,
            Token::RPAREN => Token::RPAREN,
            Token::LBRACKET => Token::LBRACKET,
            Token::RBRACKET => Token::RBRACKET,
            Token::EQ => Token::EQ,
            Token::NE => Token::NE,
            Token::LE => Token::LE,
            Token::GE => Token::GE,
            Token::LT => Token::LT,
            Token::GT => Token::GT,
            Token::ASSIGN => Token::ASSIGN,
            Token::LIST => Token::LIST,
            Token::WHITESPACE => Token::WHITESPACE,
            Token::NEWLINE => Token::NEWLINE,
            Token::ERR => Token::ERR,
        }
    }

    /// The text of the token as it is shown.
    pub fn to_string(&self) -> (r: String)
        ensures
            r@ == token_text(self@),
    {
        match self {
            Token::REAL(s) => s.clone(),
            Token::INT(s) => s.clone(),
            Token::VAR(s) => s.clone(),
            Token::ADD => String::from_str("+"),
            Token::SUB => String::from_str("-"),
            Token::MUL => String::from_str("*"),
            Token::DIV => String::from_str("/"),
            Token::INTDIV => String::from_str("//"),
            Token::POW => String::from_str("^"),
            Token::LPAREN => String::from_str("("),
            Token::RPAREN => String::from_str(")"),
            Token::LBRACKET => String::from_str("["),
            Token::RBRACKET => String::from_str("]"),
            Token::EQ => String::from_str("=="),
            Token::NE => String::from_str("!="),
            Token::LE => String::from_str("<="),
            Token::GE => String::from_str(">="),
            Token::LT => String::from_str("<"),
            Token::GT => String::from_str(">"),
            Token::ASSIGN => String::from_str("="),
            Token::LIST => String::from_str("list"),
            Token::WHITESPACE => String::from_str("<whitespace>"),
            Token::ERR => String::from_str("<error>"),
            Token::NEWLINE => String::from_str("<newline>"),
        }
    }

    /// The name of the token's kind in the scanner's report.
    pub fn kind(&self) -> (r: &'static str)
        ensures
            r@ == kind_name(self@),
    {
        match self {
            Token::REAL(_) => "REAL",
            Token::INT(_) => "INT",
            Token::VAR(_) => "VAR",
            Token::ADD => "+",
            Token::SUB => "-",
            Token::MUL => "*",
            Token::DIV => "/",
            Token::INTDIV => "//",
            Token::POW => "POW",
            Token::LPAREN => "LPAREN",
            Token::RPAREN => "RPAREN",
            Token::LBRACKET => "LBRACKET",
            Token::RBRACKET => "RBRACKET",
            Token::EQ => "==",
            Token::NE => "!=",
            Token::LT => "<",
            Token::GT => ">",
            Token::LE => "<=",
            Token::GE => ">=",
            Token::ASSIGN => "=",
            Token::LIST => "list",
            Token::ERR => "ERR",
            _ => "UNKNOWN",
        }
    }
}

/// A letter of the English alphabet or the underscore.
pub open spec fn is_name_start(c: char) -> bool {
    ('a' <= c && c <= 'z') || ('A' <= c && c <= 'Z') || c == '_'
}

/// A character that a name may go on with: a letter, the underscore or a
/// digit.
pub open spec fn is_name_part(c: char) -> bool {
    is_name_start(c) || is_digit(c)
}

/// Where the run of digits that starts at `i` ends.
pub open spec fn digits_end(s: Seq<char>, i: int) -> int
    decreases s.len() - i,
{
    if i < 0 || i >= s.len() || !is_digit(s[i]) {
        i
    } else {
        digits_end(s, i + 1)
    }
}

/// Where the run of name characters that starts at `i` ends.
pub open spec fn name_end(s: Seq<char>, i: int) -> int
    decreases s.len() - i,
{
    if i < 0 || i >= s.len() || !is_name_part(s[i]) {
        i
    } else {
        name_end(s, i + 1)
    }
}

/// Where the run of white space that starts at `i` ends.
pub open spec fn space_end(s: Seq<char>, i: int) -> int
    decreases s.len() - i,
{
    if i < 0 || i >= s.len() || !is_space(s[i]) {
        i
    } else {
        space_end(s, i + 1)
    }
}

/// Whether a digit stands at place `i`.
pub open spec fn digit_at(s: Seq<char>, i: int) -> bool {
    0 <= i < s.len() && is_digit(s[i])
}

/// Whether the character `c` stands at place `i`.
pub open spec fn char_at(s: Seq<char>, i: int, c: char) -> bool {
    0 <= i < s.len() && s[i] == c
}

/// Whether a number starts at `i`: a digit, or a minus sign and a digit.
pub open spec fn number_starts(s: Seq<char>, i: int) -> bool {
    digit_at(s, i) || (char_at(s, i, '-') && digit_at(s, i + 1))
}

/// Where the exponent of a real number ends whose fraction ends at `e`: behind
/// the digits that follow an `e` and a sign or none; at `e` where no such
/// digits follow.
pub open spec fn exponent_end(s: Seq<char>, e: int) -> int {
    if char_at(s, e, 'e') {
        let k = if char_at(s, e + 1, '-') || char_at(s, e + 1, '+') {
            e + 2
        } else {
            e + 1
        };
        if digit_at(s, k) {
            digits_end(s, k)
        } else {
            e
        }
    } else {
        e
    }
}

/// Where the number that starts at `i` ends, and whether it is a real number:
/// digits, a point and digits, with an exponent or none.
pub open spec fn number_end(s: Seq<char>, i: int) -> (int, bool) {
    let d = if char_at(s, i, '-') {
        i + 1
    } else {
        i
    };
    let e = digits_end(s, d);
    if char_at(s, e, '.') && digit_at(s, e + 1) {
        (exponent_end(s, digits_end(s, e + 1)), true)
    } else {
        (e, false)
    }
}

/// Where the operator that starts at `i` ends, and which it is; `ERR` and
/// one character for a character that starts no token.
pub open spec fn operator_at(s: Seq<char>, i: int) -> (int, TokenView) {
    let c = s[i];
    if c == '+' {
        (i + 1, TokenView::ADD)
    } else if c == '-' {
        (i + 1, TokenView::SUB)
    } else if c == '*' {
        (i + 1, TokenView::MUL)
    } else if c == '/' {
        if char_at(s, i + 1, '/') {
            (i + 2, TokenView::INTDIV)
        } else {
            (i + 1, TokenView::DIV)
        }
    } else if c == '^' {
        (i + 1, TokenView::POW)
    } else if c == '(' {
        (i + 1, TokenView::LPAREN)
    } else if c == ')' {
        (i + 1, TokenView::RPAREN)
    } else if c == '[' {
        (i + 1, TokenView::LBRACKET)
    } else if c == ']' {
        (i + 1, TokenView::RBRACKET)
    } else if c == '=' {
        if char_at(s, i + 1, '=') {
            (i + 2, TokenView::EQ)
        } else {
            (i + 1, TokenView::ASSIGN)
        }
    } else if c == '!' && char_at(s, i + 1, '=') {
        (i + 2, TokenView::NE)
    } else if c == '<' {
        if char_at(s, i + 1, '=') {
            (i + 2, TokenView::LE)
        } else {
            (i + 1, TokenView::LT)
        }
    } else if c == '>' {
        if char_at(s, i + 1, '=') {
            (i + 2, TokenView::GE)
        } else {
            (i + 1, TokenView::GT)
        }
    } else {
        (i + 1, TokenView::ERR)
    }
}

/// The token that starts at `i`, which lies inside the text: where it ends,
/// and which it is; no token for white space that is passed over.
pub open spec fn token_at(s: Seq<char>, i: int) -> (int, Option<TokenView>) {
    let c = s[i];
    if is_space(c) {
        let e = space_end(s, i);
        if e == i + 1 && c == '\n' {
            (e, Some(TokenView::NEWLINE))
        } else {
            (e, None)
        }
    } else if number_starts(s, i) {
        let (e, fraction) = number_end(s, i);
        if fraction {
            (e, Some(TokenView::REAL(s.subrange(i, e))))
        } else {
            (e, Some(TokenView::INT(s.subrange(i, e))))
        }
    } else if is_name_start(c) {
        let e = name_end(s, i);
        if s.subrange(i, e) == "list"@ {
            (e, Some(TokenView::LIST))
        } else {
            (e, Some(TokenView::VAR(s.subrange(i, e))))
        }
    } else {
        let (e, t) = operator_at(s, i);
        (e, Some(t))
    }
}

/// The tokens of `s` from place `i` on, each with the text it was read from.
pub open spec fn scan_from(s: Seq<char>, i: int) -> Seq<(Seq<char>, TokenView)>
    decreases s.len() - i,
{
    if i < 0 || i >= s.len() {
        Seq::empty()
    } else {
        let (e, t) = token_at(s, i);
        if i < e <= s.len() {
            match t {
                Some(t) => seq![(s.subrange(i, e), t)] + scan_from(s, e),
                None => scan_from(s, e),
            }
        } else {
            Seq::empty()
        }
    }
}

/// The tokens of a text, each with the text it was read from.
pub open spec fn scan(s: Seq<char>) -> Seq<(Seq<char>, TokenView)> {
    scan_from(s, 0)
}

/// The tokens of a text.
pub open spec fn tokens_of(s: Seq<char>) -> Seq<TokenView> {
    scan(s).map_values(|p: (Seq<char>, TokenView)| p.1)
}

/// One token of the scanner's report: the text, a slash and the name of the
/// kind.
pub open spec fn report_entry(p: (Seq<char>, TokenView)) -> Seq<char> {
    p.0 + seq!['/'] + kind_name(p.1)
}

/// The entries of the report put one after another with one blank between
/// two of them.
pub open spec fn joined(entries: Seq<Seq<char>>) -> Seq<char>
    decreases entries.len(),
{
    if entries.len() == 0 {
        Seq::empty()
    } else if entries.len() == 1 {
        entries[0]
    } else {
        joined(entries.drop_last()) + seq![' '] + entries.last()
    }
}

/// The scanner's report of one line.
pub open spec fn report_line(line: Seq<char>) -> Seq<char> {
    joined(scan(line).map_values(|p: (Seq<char>, TokenView)| report_entry(p)))
}

/// The scanner's report of a text: one line of report for each line of text.
pub open spec fn report(s: Seq<char>) -> Seq<Seq<char>> {
    lines(s).map_values(|l: Seq<char>| report_line(l))
}

/// The tokens with their texts that a vector of such pairs holds.
pub open spec fn pairs_view(v: Seq<(String, Token)>) -> Seq<(Seq<char>, TokenView)> {
    v.map_values(|p: (String, Token)| (p.0@, p.1@))
}

/// The tokens that a vector of tokens holds.
pub open spec fn tokens_view(v: Seq<Token>) -> Seq<TokenView> {
    v.map_values(|t: Token| t@)
}

proof fn lemma_digits_end(s: Seq<char>, i: int)
    requires
        0 <= i <= s.len(),
    ensures
        i <= digits_end(s, i) <= s.len(),
        digit_at(s, i) ==> i < digits_end(s, i),
    decreases s.len() - i,
{
    if i < s.len() && is_digit(s[i]) {
        lemma_digits_end(s, i + 1);
    }
}

proof fn lemma_name_end(s: Seq<char>, i: int)
    requires
        0 <= i <= s.len(),
    ensures
        i <= name_end(s, i) <= s.len(),
        i < s.len() && is_name_part(s[i]) ==> i < name_end(s, i),
    decreases s.len() - i,
{
    if i < s.len() && is_name_part(s[i]) {
        lemma_name_end(s, i + 1);
    }
}

proof fn lemma_space_end(s: Seq<char>, i: int)
    requires
        0 <= i <= s.len(),
    ensures
        i <= space_end(s, i) <= s.len(),
        i < s.len() && is_space(s[i]) ==> i < space_end(s, i),
    decreases s.len() - i,
{
    if i < s.len() && is_space(s[i]) {
        lemma_space_end(s, i + 1);
    }
}

fn name_start(c: char) -> (r: bool)
    ensures
        r == is_name_start(c),
{
    ('a' <= c && c <= 'z') || ('A' <= c && c <= 'Z') || c == '_'
}

fn has_digit(s: &Vec<char>, i: usize) -> (r: bool)
    ensures
        r == digit_at(s@, i as int),
{
    i < s.len() && digit(s[i])
}

fn has_char(s: &Vec<char>, i: usize, c: char) -> (r: bool)
    ensures
        r == char_at(s@, i as int, c),
{
    i < s.len() && s[i] == c
}

fn end_of_digits(s: &Vec<char>, from: usize) -> (r: usize)
    requires
        from <= s.len(),
    ensures
        r == digits_end(s@, from as int),
        from <= r <= s.len(),
{
    let mut i: usize = from;
    while i < s.len() && digit(s[i])
        invariant
            from <= i <= s.len(),
            digits_end(s@, i as int) == digits_end(s@, from as int),
        decreases s.len() - i,
    {
        i += 1;
    }
    i
}

fn end_of_name(s: &Vec<char>, from: usize) -> (r: usize)
    requires
        from <= s.len(),
    ensures
        r == name_end(s@, from as int),
        from <= r <= s.len(),
{
    let mut i: usize = from;
    while i < s.len() && (name_start(s[i]) || digit(s[i]))
        invariant
            from <= i <= s.len(),
            name_end(s@, i as int) == name_end(s@, from as int),
        decreases s.len() - i,
    {
        i += 1;
    }
    i
}

fn end_of_space(s: &Vec<char>, from: usize) -> (r: usize)
    requires
        from <= s.len(),
    ensures
        r == space_end(s@, from as int),
        from <= r <= s.len(),
{
    let mut i: usize = from;
    while i < s.len() && space(s[i])
        invariant
            from <= i <= s.len(),
            space_end(s@, i as int) == space_end(s@, from as int),
        decreases s.len() - i,
    {
        i += 1;
    }
    i
}

fn end_of_number(s: &Vec<char>, i: usize) -> (r: (usize, bool))
    requires
        number_starts(s@, i as int),
    ensures
        r.0 as int == number_end(s@, i as int).0,
        r.1 == number_end(s@, i as int).1,
        i < r.0 <= s.len(),
{
    assert(i < s.len());
    let d = if s[i] == '-' {
        i + 1
    } else {
        i
    };
    let e = end_of_digits(s, d);
    proof {
        lemma_digits_end(s@, d as int);
    }
    if has_char(s, e, '.') && has_digit(s, e + 1) {
        let f = end_of_digits(s, e + 1);
        if has_char(s, f, 'e') {
            let k = if has_char(s, f + 1, '-') || has_char(s, f + 1, '+') {
                f + 2
            } else {
                f + 1
            };
            if has_digit(s, k) {
                (end_of_digits(s, k), true)
            } else {
                (f, true)
            }
        } else {
            (f, true)
        }
    } else {
        (e, false)
    }
}

fn operator(s: &Vec<char>, i: usize) -> (r: (usize, Token))
    requires
        i < s.len(),
    ensures
        r.0 as int == operator_at(s@, i as int).0,
        r.1@ == operator_at(s@, i as int).1,
        i < r.0 <= s.len(),
{
    let c = s[i];
    if c == '+' {
        (i + 1, Token::ADD)
    } else if c == '-' {
        (i + 1, Token::SUB)
    } else if c == '*' {
        (i + 1, Token::MUL)
    } else if c == '/' {
        if has_char(s, i + 1, '/') {
            (i + 2, Token::INTDIV)
        } else {
            (i + 1, Token::DIV)
        }
    } else if c == '^' {
        (i + 1, Token::POW)
    } else if c == '(' {
        (i + 1, Token::LPAREN)
    } else if c == ')' {
        (i + 1, Token::RPAREN)
    } else if c == '[' {
        (i + 1, Token::LBRACKET)
    } else if c == ']' {
        (i + 1, Token::RBRACKET)
    } else if c == '=' {
        if has_char(s, i + 1, '=') {
            (i + 2, Token::EQ)
        } else {
            (i + 1, Token::ASSIGN)
        }
    } else if c == '!' && has_char(s, i + 1, '=') {
        (i + 2, Token::NE)
    } else if c == '<' {
        if has_char(s, i + 1, '=') {
            (i + 2, Token::LE)
        } else {
            (i + 1, Token::LT)
        }
    } else if c == '>' {
        if has_char(s, i + 1, '=') {
            (i + 2, Token::GE)
        } else {
            (i + 1, Token::GT)
        }
    } else {
        (i + 1, Token::ERR)
    }
}

fn next_token(s: &Vec<char>, i: usize) -> (r: (usize, Option<Token>))
    requires
        i < s.len(),
    ensures
        r.0 as int == token_at(s@, i as int).0,
        match r.1 {
            Some(t) => token_at(s@, i as int).1 == Some(t@),
            None => token_at(s@, i as int).1 is None,
        },
        i < r.0 <= s.len(),
{
    let c = s[i];
    if space(c) {
        let e = end_of_space(s, i);
        proof {
            lemma_space_end(s@, i as int);
        }
        if e == i + 1 && c == '\n' {
            (e, Some(Token::NEWLINE))
        } else {
            (e, None)
        }
    } else if digit(c) || (c == '-' && has_digit(s, i + 1)) {
        let (e, fraction) = end_of_number(s, i);
        let lexeme = string_of_range(s, i, e);
        if fraction {
            (e, Some(Token::REAL(lexeme)))
        } else {
            (e, Some(Token::INT(lexeme)))
        }
    } else if name_start(c) {
        let e = end_of_name(s, i);
        proof {
            lemma_name_end(s@, i as int);
        }
        let lexeme = string_of_range(s, i, e);
        if crate::isa::word_is(&lexeme, "list") {
            (e, Some(Token::LIST))
        } else {
            (e, Some(Token::VAR(lexeme)))
        }
    } else {
        let (e, t) = operator(s, i);
        (e, Some(t))
    }
}

fn scan_text(s: &Vec<char>) -> (r: Vec<(String, Token)>)
    ensures
        pairs_view(r@) == scan(s@),
{
    let mut out: Vec<(String, Token)> = Vec::new();
    let mut i: usize = 0;
    assert(pairs_view(out@) =~= Seq::<(Seq<char>, TokenView)>::empty());
    while i < s.len()
        invariant
            i <= s.len(),
            pairs_view(out@) + scan_from(s@, i as int) == scan(s@),
        decreases s.len() - i,
    {
        let (e, t) = next_token(s, i);
        match t {
            Some(t) => {
                let ghost before = pairs_view(out@);
                let lexeme = string_of_range(s, i, e);
                let ghost entry = (lexeme@, t@);
                out.push((lexeme, t));
                proof {
                    assert(pairs_view(out@) =~= before.push(entry));
                    assert(before.push(entry) + scan_from(s@, e as int) =~= before + (seq![entry]
                        + scan_from(s@, e as int)));
                }
            },
            None => {},
        }
        i = e;
    }
    assert(scan_from(s@, s.len() as int) =~= Seq::<(Seq<char>, TokenView)>::empty());
    assert(pairs_view(out@) + Seq::<(Seq<char>, TokenView)>::empty() =~= pairs_view(out@));
    out
}

/// The tokens of a text. A character that starts no token gives `ERR`.
pub fn tokenize(input: &str) -> (r: Vec<Token>)
    ensures
        tokens_view(r@) == tokens_of(input@),
{
    let s = chars_of(input);
    let pairs = scan_text(&s);
    let mut out: Vec<Token> = Vec::new();
    let mut i: usize = 0;
    while i < pairs.len()
        invariant
            i <= pairs.len(),
            out.len() == i,
            forall|j: int| 0 <= j < i ==> (#[trigger] out@[j])@ == pairs@[j].1@,
        decreases pairs.len() - i,
    {
        out.push(pairs[i].1.copy());
        i += 1;
    }
    assert(tokens_view(out@) =~= tokens_of(input@)) by {
        assert(pairs_view(pairs@) == scan(input@));
        assert forall|j: int| 0 <= j < out.len() implies tokens_view(out@)[j] == tokens_of(
            input@,
        )[j] by {
            assert(pairs_view(pairs@)[j] == (pairs@[j].0@, pairs@[j].1@));
        }
    }
    out
}

/// The tokens of a text, each with the text it was read from.
pub fn tokenize_vector(input: &str) -> (r: Vec<(String, Token)>)
    ensures
        pairs_view(r@) == scan(input@),
{
    let s = chars_of(input);
    scan_text(&s)
}

fn report_of_line(line: &Vec<char>) -> (r: String)
    ensures
        r@ == report_line(line@),
{
    let pairs = scan_text(line);
    let ghost entries = scan(line@).map_values(|p: (Seq<char>, TokenView)| report_entry(p));
    let mut out: Vec<char> = Vec::new();
    let mut i: usize = 0;
    assert(entries.take(0) =~= Seq::<Seq<char>>::empty());
    while i < pairs.len()
        invariant
            i <= pairs.len(),
            pairs_view(pairs@) == scan(line@),
            entries == scan(line@).map_values(|p: (Seq<char>, TokenView)| report_entry(p)),
            out@ == joined(entries.take(i as int)),
        decreases pairs.len() - i,
    {
        let ghost before = out@;
        if i > 0 {
            out.push(' ');
        }
        push_str(&mut out, pairs[i].0.as_str());
        out.push('/');
        push_str(&mut out, pairs[i].1.kind());
        proof {
            assert(pairs_view(pairs@)[i as int] == (pairs@[i as int].0@, pairs@[i as int].1@));
            let entry = entries[i as int];
            assert(entry == pairs@[i as int].0@ + seq!['/'] + kind_name(pairs@[i as int].1@));
            let t = entries.take(i + 1);
            assert(t.drop_last() =~= entries.take(i as int));
            assert(t.last() == entry);
            if i > 0 {
                assert(out@ =~= before + seq![' '] + entry);
            } else {
                assert(out@ =~= entry);
            }
        }
        i += 1;
    }
    assert(entries.take(pairs.len() as int) =~= entries);
    string_of(&out)
}

/// The scanner's report: for each line of the text its tokens, each as its
/// text, a slash and the name of its kind, with one blank between two.
pub fn run_scanner(input: &str) -> (r: Vec<String>)
    ensures
        r.deep_view() == report(input@),
{
    let s = chars_of(input);
    let ls = split_lines(&s);
    let mut out: Vec<String> = Vec::new();
    let mut i: usize = 0;
    while i < ls.len()
        invariant
            i <= ls.len(),
            texts(ls@) == lines(s@),
            out.len() == i,
            forall|j: int| 0 <= j < i ==> (#[trigger] out@[j])@ == report_line(ls@[j]@),
        decreases ls.len() - i,
    {
        out.push(report_of_line(&ls[i]));
        i += 1;
    }
    assert(out.deep_view() =~= report(input@)) by {
        assert forall|j: int| 0 <= j < out.len() implies out.deep_view()[j] == report(input@)[j] by {
            assert(texts(ls@)[j] == ls@[j]@);
        }
    }
    out
}

} // verus!
