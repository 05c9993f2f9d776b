//! The symbol table: one entry for each assignment of a parsed text.

use vstd::prelude::*;
use crate::ast::{tree, Expr, ExprView, ParseError, ParseErrorView};
use crate::dict::Dict;
use crate::grammar::plus;
use crate::number::{is_whole, whole};
use crate::parser::{add_capped, result_view, results_view};
use crate::scanner::{Token, TokenView};
use crate::text::{
    chars_of,
    decimal,
    decimal_nat,
    decimal_of_i64,
    push_all,
    push_decimal_u64,
    push_str,
    string_of,
};

verus! {

/// The type of a variable.
#[derive(Debug)]
pub enum VariableType {
    INT,
    REAL,
    LIST(Box<VariableType>),
}

impl View for VariableType {
    type V = VariableType;

    open spec fn view(&self) -> VariableType {
        *self
    }
}

impl Clone for VariableType {
    fn clone(&self) -> (r: VariableType)
        ensures
            r == *self,
    {
        self.copy()
    }
}

impl VariableType {
    /// The same type once more.
    pub fn copy(&self) -> (r: VariableType)
        ensures
            r == *self,
        decreases self,
    {
        match self {
            VariableType::INT => VariableType::INT,
            VariableType::REAL => VariableType::REAL,
            VariableType::LIST(inner) => VariableType::LIST(Box::new(inner.copy())),
        }
    }
}

/// One entry of the table: the name that was assigned, the line of the
/// assignment, where the value starts in the table's running count and how
/// long it is, the kind of the value, and the value as text.
#[derive(Debug)]
pub struct SymbolTableEntry {
    lexeme: String,
    line_number: usize,
    start_pos: usize,
    length: usize,
    value_type: Token,
    value: String,
}

/// An entry with its texts as sequences of characters.
pub struct EntryView {
    pub lexeme: Seq<char>,
    pub line_number: usize,
    pub start_pos: usize,
    pub length: usize,
    pub value_type: TokenView,
    pub value: Seq<char>,
}

impl View for SymbolTableEntry {
    type V = EntryView;

    closed spec fn view(&self) -> EntryView {
        EntryView {
            lexeme: self.lexeme@,
            line_number: self.line_number,
            start_pos: self.start_pos,
            length: self.length,
            value_type: self.value_type@,
            value: self.value@,
        }
    }
}

/// A text between double quotes, with a backslash before a double quote and
/// a backslash, and `\n`, `\r`, `\t` for line feed, carriage return and tab.
pub open spec fn quoted_from(s: Seq<char>, n: int) -> Seq<char>
    decreases n,
{
    if n <= 0 || n > s.len() {
        seq!['"']
    } else {
        let c = s[n - 1];
        let before = quoted_from(s, n - 1);
        if c == '"' {
            before + seq!['\\', '"']
        } else if c == '\\' {
            before + seq!['\\', '\\']
        } else if c == '\n' {
            before + seq!['\\', 'n']
        } else if c == '\r' {
            before + seq!['\\', 'r']
        } else if c == '\t' {
            before + seq!['\\', 't']
        } else {
            before.push(c)
        }
    }
}

/// A text between double quotes.
pub open spec fn quoted(s: Seq<char>) -> Seq<char> {
    quoted_from(s, s.len() as int).push('"')
}

/// A token as the table shows it: its name, and the lexeme of a number or a
/// name in round brackets and quotes behind it.
pub open spec fn token_shown(t: TokenView) -> Seq<char> {
    match t {
        TokenView::REAL(s) => "REAL("@ + quoted(s) + ")"@,
        TokenView::INT(s) => "INT("@ + quoted(s) + ")"@,
        TokenView::VAR(s) => "VAR("@ + quoted(s) + ")"@,
        TokenView::ADD => "ADD"@,
        TokenView::SUB => "SUB"@,
        TokenView::MUL => "MUL"@,
        TokenView::DIV => "DIV"@,
        TokenView::INTDIV => "INTDIV"@,
        TokenView::POW => "POW"@,
        TokenView::LPAREN => "LPAREN"@,
        TokenView::RPAREN => "RPAREN"@,
        TokenView::LBRACKET => "LBRACKET"@,
        TokenView::RBRACKET => "RBRACKET"@,
        TokenView::EQ => "EQ"@,
        TokenView::NE => "NE"@,
        TokenView::LE => "LE"@,
        TokenView::GE => "GE"@,
        TokenView::LT => "LT"@,
        TokenView::GT => "GT"@,
        TokenView::ASSIGN => "ASSIGN"@,
        TokenView::LIST => "LIST"@,
        TokenView::WHITESPACE => "WHITESPACE"@,
        TokenView::NEWLINE => "NEWLINE"@,
        TokenView::ERR => "ERR"@,
    }
}

/// The line of an entry: its six fields with commas between them.
pub open spec fn entry_line(e: EntryView) -> Seq<char> {
    e.lexeme + seq![','] + decimal_nat(e.line_number as nat) + seq![','] + decimal_nat(
        e.start_pos as nat,
    ) + seq![','] + decimal_nat(e.length as nat) + seq![','] + token_shown(e.value_type) + seq![
        ',',
    ] + e.value
}

/// Whether every element of a list is a whole number.
pub open spec fn all_whole(elements: Seq<u64>) -> bool {
    forall|i: int| 0 <= i < elements.len() ==> is_whole(#[trigger] elements[i])
}

/// The state of the table while a text is gone through.
pub struct TableView {
    pub entries: Seq<EntryView>,
    pub variables: Map<Seq<char>, VariableType>,
    pub current_pos: usize,
}

/// The text of the index of an element: the number of a literal, and
/// `unknown` for any other tree.
pub open spec fn index_shown(index: ExprView) -> Seq<char> {
    match index {
        ExprView::Int(n) => decimal(n as int),
        _ => "unknown"@,
    }
}

/// The type of the elements of the list `name`; `INT` where the name is not
/// known as a list.
pub open spec fn element_type(variables: Map<Seq<char>, VariableType>, name: Seq<char>) -> VariableType {
    if variables.contains_key(name) {
        match variables[name] {
            VariableType::LIST(inner) => *inner,
            _ => VariableType::INT,
        }
    } else {
        VariableType::INT
    }
}

/// What an assignment leaves in the table.
pub struct Description {
    pub kind: TokenView,
    pub text: Seq<char>,
    pub length: nat,
    pub variables: Map<Seq<char>, VariableType>,
}

/// What an assignment of `value` to `name` leaves in the table: the kind,
/// the text and the length of the value, and the types of the variables
/// afterwards. Nothing for a value that is no number, list or element.
pub open spec fn description(
    variables: Map<Seq<char>, VariableType>,
    name: Seq<char>,
    value: ExprView,
) -> Option<Description> {
    match value {
        ExprView::Int(n) => Some(
            Description {
                kind: TokenView::INT(decimal(n as int)),
                text: decimal(n as int),
                length: decimal(n as int).len(),
                variables: variables.insert(name, VariableType::INT),
            },
        ),
        ExprView::Float(x) => Some(
            Description {
                kind: TokenView::REAL(x.text),
                text: x.text,
                length: x.text.len(),
                variables: variables.insert(name, VariableType::REAL),
            },
        ),
        ExprView::List(elements) => Some(
            Description {
                kind: TokenView::LIST,
                text: "Array"@,
                length: 5,
                variables: variables.insert(
                    name,
                    VariableType::LIST(
                        Box::new(
                            if all_whole(elements) {
                                VariableType::INT
                            } else {
                                VariableType::REAL
                            },
                        ),
                    ),
                ),
            },
        ),
        ExprView::ListAccess(list, index) => {
            let shown = index_shown(*index);
            Some(
                Description {
                    kind: match element_type(variables, list) {
                        VariableType::INT => TokenView::INT(shown),
                        VariableType::REAL => TokenView::REAL(shown),
                        _ => TokenView::LIST,
                    },
                    text: list + seq!['['] + shown + seq![']'],
                    length: list.len() + shown.len() + 2,
                    variables: variables,
                },
            )
        },
        _ => None,
    }
}

/// The table after the result of line `line` (counted from zero) was gone
/// through. Only an assignment of a number, a list or an element of a list
/// leaves an entry, and tells the type of its variable.
pub open spec fn noted(t: TableView, line: usize, result: Result<ExprView, ParseErrorView>) -> TableView {
    match result {
        Ok(ExprView::Assignment(name, value)) => match description(t.variables, name, *value) {
            Some(d) => TableView {
                entries: t.entries.push(
                    EntryView {
                        lexeme: name,
                        line_number: plus(line, 1),
                        start_pos: t.current_pos,
                        length: plus(0, d.length),
                        value_type: d.kind,
                        value: d.text,
                    },
                ),
                variables: d.variables,
                current_pos: plus(plus(t.current_pos, d.length), 1),
            },
            None => t,
        },
        _ => t,
    }
}

/// The table after the first `n` results were gone through, the running
/// count starting at zero.
pub open spec fn noted_all(
    entries: Seq<EntryView>,
    variables: Map<Seq<char>, VariableType>,
    results: Seq<Result<ExprView, ParseErrorView>>,
    n: nat,
) -> TableView
    decreases n,
{
    if n == 0 {
        TableView { entries: entries, variables: variables, current_pos: 0 }
    } else {
        noted(noted_all(entries, variables, results, (n - 1) as nat), (n - 1) as usize, results[n - 1])
    }
}

fn push_quoted(out: &mut Vec<char>, s: &str)
    ensures
        final(out)@ == old(out)@ + quoted(s@),
{
    let ghost before = out@;
    let v = chars_of(s);
    out.push('"');
    let mut i: usize = 0;
    while i < v.len()
        invariant
            i <= v.len(),
            v@ == s@,
            out@ == before + quoted_from(s@, i as int),
        decreases v.len() - i,
    {
        let c = v[i];
        if c == '"' {
            out.push('\\');
            out.push('"');
        } else if c == '\\' {
            out.push('\\');
            out.push('\\');
        } else if c == '\n' {
            out.push('\\');
            out.push('n');
        } else if c == '\r' {
            out.push('\\');
            out.push('r');
        } else if c == '\t' {
            out.push('\\');
            out.push('t');
        } else {
            out.push(c);
        }
        assert(out@ =~= before + quoted_from(s@, i + 1));
        i += 1;
    }
    out.push('"');
    assert(out@ =~= before + quoted(s@));
}

fn push_token(out: &mut Vec<char>, t: &Token)
    ensures
        final(out)@ == old(out)@ + token_shown(t@),
{
    let ghost before = out@;
    match t {
        Token::REAL(s) => {
            push_str(out, "REAL(");
            push_quoted(out, s.as_str());
            push_str(out, ")");
            assert(out@ =~= before + token_shown(t@));
        },
        Token::INT(s) => {
            push_str(out, "INT(");
            push_quoted(out, s.as_str());
            push_str(out, ")");
            assert(out@ =~= before + token_shown(t@));
        },
        Token::VAR(s) => {
            push_str(out, "VAR(");
            push_quoted(out, s.as_str());
            push_str(out, ")");
            assert(out@ =~= before + token_shown(t@));
        },
        Token::ADD => push_str(out, "ADD"),
        Token::SUB => push_str(out, "SUB"),
        Token::MUL => push_str(out, "MUL"),
        Token::DIV => push_str(out, "DIV"),
        Token::INTDIV => push_str(out, "INTDIV"),
        Token::POW => push_str(out, "POW"),
        Token::LPAREN => push_str(out, "LPAREN"),
        Token::RPAREN => push_str(out, "RPAREN"),
        Token::LBRACKET => push_str(out, "LBRACKET"),
        Token::RBRACKET => push_str(out, "RBRACKET"),
        Token::EQ => push_str(out, "EQ"),
        Token::NE => push_str(out, "NE"),
        Token::LE => push_str(out, "LE"),
        Token::GE => push_str(out, "GE"),
        Token::LT => push_str(out, "LT"),
        Token::GT => push_str(out, "GT"),
        Token::ASSIGN => push_str(out, "ASSIGN"),
        Token::LIST => push_str(out, "LIST"),
        Token::WHITESPACE => push_str(out, "WHITESPACE"),
        Token::NEWLINE => push_str(out, "NEWLINE"),
        Token::ERR => push_str(out, "ERR"),
    }
}

fn whole_elements(elements: &Vec<u64>) -> (r: bool)
    ensures
        r == all_whole(elements@),
{
    let mut i: usize = 0;
    while i < elements.len()
        invariant
            i <= elements.len(),
            forall|j: int| 0 <= j < i ==> is_whole(#[trigger] elements@[j]),
        decreases elements.len() - i,
    {
        if !whole(elements[i]) {
            return false;
        }
        i += 1;
    }
    true
}

impl SymbolTableEntry {
    /// The line of the entry: its six fields with commas between them.
    pub fn line(&self) -> (r: String)
        ensures
            r@ == entry_line(self@),
    {
        let mut out: Vec<char> = Vec::new();
        push_str(&mut out, self.lexeme.as_str());
        out.push(',');
        push_decimal_u64(&mut out, self.line_number as u64);
        out.push(',');
        push_decimal_u64(&mut out, self.start_pos as u64);
        out.push(',');
        push_decimal_u64(&mut out, self.length as u64);
        out.push(',');
        push_token(&mut out, &self.value_type);
        out.push(',');
        push_str(&mut out, self.value.as_str());
        assert(out@ =~= entry_line(self@));
        string_of(&out)
    }

    /// The name that was assigned.
    pub fn lexeme(&self) -> (r: &String)
        ensures
            r@ == self@.lexeme,
    {
        &self.lexeme
    }

    /// The line of the assignment, counted from one.
    pub fn line_number(&self) -> (r: usize)
        ensures
            r == self@.line_number,
    {
        self.line_number
    }

    /// Where the value starts in the running count of the table.
    pub fn start_pos(&self) -> (r: usize)
        ensures
            r == self@.start_pos,
    {
        self.start_pos
    }

    /// The length of the value.
    pub fn length(&self) -> (r: usize)
        ensures
            r == self@.length,
    {
        self.length
    }

    /// The kind of the value.
    pub fn value_type(&self) -> (r: &Token)
        ensures
            r@ == self@.value_type,
    {
        &self.value_type
    }

    /// The value as text.
    pub fn value(&self) -> (r: &String)
        ensures
            r@ == self@.value,
    {
        &self.value
    }
}

/// The symbol table.
#[derive(Debug)]
pub struct SymbolTable {
    entries: Vec<SymbolTableEntry>,
    variables: Dict<VariableType>,
}

impl SymbolTable {
    /// The entries of the table, oldest first.
    pub closed spec fn entries(&self) -> Seq<EntryView> {
        self.entries@.map_values(|e: SymbolTableEntry| e@)
    }

    /// The types of the variables that the table knows.
    pub closed spec fn variables(&self) -> Map<Seq<char>, VariableType> {
        self.variables.map()
    }

    /// An empty table.
    pub fn new() -> (t: Self)
        ensures
            t.entries() == Seq::<EntryView>::empty(),
            t.variables() == Map::<Seq<char>, VariableType>::empty(),
    {
        let t = SymbolTable { entries: Vec::new(), variables: Dict::new() };
        assert(t.entries() =~= Seq::<EntryView>::empty());
        t
    }

    /// Puts an entry at the end of the table.
    pub fn insert(
        &mut self,
        lexeme: String,
        line_number: usize,
        start_pos: usize,
        length: usize,
        value_type: Token,
        value: String,
    )
        ensures
            final(self).variables() == old(self).variables(),
            final(self).entries() == old(self).entries().push(
                EntryView {
                    lexeme: lexeme@,
                    line_number: line_number,
                    start_pos: start_pos,
                    length: length,
                    value_type: value_type@,
                    value: value@,
                },
            ),
    {
        let ghost before = self.entries();
        let entry = SymbolTableEntry { lexeme, line_number, start_pos, length, value_type, value };
        let ghost shown = entry@;
        self.entries.push(entry);
        assert(self.entries() =~= before.push(shown));
    }

    /// What an assignment leaves in the table; the types of the variables are
    /// brought up to date.
    fn describe(&mut self, name: &String, value: &Expr) -> (r: Option<(Token, String, usize)>)
        ensures
            final(self).entries() == old(self).entries(),
            match r {
                Some((kind, text, length)) => {
                    let d = description(old(self).variables(), name@, value@);
                    &&& d is Some
                    &&& d->0.kind == kind@
                    &&& d->0.text == text@
                    &&& length == plus(0, d->0.length)
                    &&& d->0.variables == final(self).variables()
                },
                None => {
                    &&& description(old(self).variables(), name@, value@) is None
                    &&& final(self).variables() == old(self).variables()
                },
            },
    {
        proof {
            reveal_with_fuel(tree, 2);
        }
        match value {
            Expr::Int(n) => {
                self.variables.insert(name.clone(), VariableType::INT);
                let text = decimal_of_i64(*n);
                Some((Token::INT(string_of(&text)), string_of(&text), text.len()))
            },
            Expr::Float(x) => {
                self.variables.insert(name.clone(), VariableType::REAL);
                Some((Token::REAL(x.text.clone()), x.text.clone(), x.text.as_str().unicode_len()))
            },
            Expr::List(elements) => {
                let inner = if whole_elements(elements) {
                    VariableType::INT
                } else {
                    VariableType::REAL
                };
                self.variables.insert(name.clone(), VariableType::LIST(Box::new(inner)));
                Some((Token::LIST, String::from_str("Array"), 5))
            },
            Expr::ListAccess(list, index) => {
                let inner: VariableType = match self.variables.get(list) {
                    Some(VariableType::LIST(inner)) => inner.copy(),
                    _ => VariableType::INT,
                };
                let shown: Vec<char> = match &**index {
                    Expr::Int(n) => decimal_of_i64(*n),
                    _ => chars_of("unknown"),
                };
                let kind = match inner {
                    VariableType::INT => Token::INT(string_of(&shown)),
                    VariableType::REAL => Token::REAL(string_of(&shown)),
                    _ => Token::LIST,
                };
                let list_chars = chars_of(list.as_str());
                let mut text: Vec<char> = Vec::new();
                push_all(&mut text, &list_chars);
                text.push('[');
                push_all(&mut text, &shown);
                text.push(']');
                let total: u128 = list_chars.len() as u128 + shown.len() as u128 + 2;
                let length: usize = if total > usize::MAX as u128 {
                    usize::MAX
                } else {
                    total as usize
                };
                assert(text@ =~= list@ + seq!['['] + shown@ + seq![']']);
                Some((kind, string_of(&text), length))
            },
            _ => None,
        }
    }

    /// Goes through the results of a parsed text, one for each line, and
    /// puts an entry into the table for each assignment of a number, a list
    /// or an element of a list.
    pub fn process_parsed_expressions(&mut self, parsed_results: Vec<Result<Expr, ParseError>>)
        ensures
            ({
                let t = noted_all(
                    old(self).entries(),
                    old(self).variables(),
                    results_view(parsed_results@),
                    parsed_results@.len(),
                );
                final(self).entries() == t.entries && final(self).variables() == t.variables
            }),
    {
        let ghost results = results_view(parsed_results@);
        let ghost entries0 = self.entries();
        let ghost variables0 = self.variables();
        let mut current_pos: usize = 0;
        let mut i: usize = 0;
        while i < parsed_results.len()
            invariant
                i <= parsed_results.len(),
                results == results_view(parsed_results@),
                noted_all(entries0, variables0, results, i as nat) == (TableView {
                    entries: self.entries(),
                    variables: self.variables(),
                    current_pos: current_pos,
                }),
            decreases parsed_results.len() - i,
        {
            proof {
                reveal_with_fuel(tree, 3);
                assert(results[i as int] == result_view(parsed_results@[i as int]));
            }
            match &parsed_results[i] {
                Ok(Expr::Assignment(name, value)) => {
                    match self.describe(name, value) {
                        Some((kind, text, length)) => {
                            let line_number = add_capped(i, 1);
                            self.insert(name.clone(), line_number, current_pos, length, kind, text);
                            current_pos = add_capped(add_capped(current_pos, length), 1);
                        },
                        None => {},
                    }
                },
                _ => {},
            }
            i += 1;
        }
    }

    /// The lines of the table, one for each entry.
    pub fn output(&self) -> (r: Vec<String>)
        ensures
            r.deep_view() == self.entries().map_values(|e: EntryView| entry_line(e)),
    {
        let mut out: Vec<String> = Vec::new();
        let mut i: usize = 0;
        while i < self.entries.len()
            invariant
                i <= self.entries.len(),
                out.len() == i,
                forall|j: int| 0 <= j < i ==> (#[trigger] out@[j])@ == entry_line(self.entries@[j]@),
            decreases self.entries.len() - i,
        {
            out.push(self.entries[i].line());
            i += 1;
        }
        assert(out.deep_view() =~= self.entries().map_values(|e: EntryView| entry_line(e)));
        out
    }

    /// How many entries the table has.
    pub fn len(&self) -> (n: usize)
        ensures
            n == self.entries().len(),
    {
        self.entries.len()
    }

    /// The entry at place `i`.
    pub fn entry(&self, i: usize) -> (e: &SymbolTableEntry)
        requires
            i < self.entries().len(),
        ensures
            e@ == self.entries()[i as int],
    {
        &self.entries[i]
    }
}

} // verus!
