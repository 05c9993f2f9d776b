//! Parsing a whole text: the tokens are cut into lines at the `NEWLINE`
//! tokens, and each line that holds a token is parsed and gives one result.
//! An error ends its line only; the next line is parsed with the variables as
//! they stand.

use vstd::prelude::*;
use crate::ast::{message, rendered, Expr, ExprView, ParseError, ParseErrorView};
use crate::grammar::{parsed_line, plus, token_length, Context, Cursor};
use crate::parser::{add_capped, result_view, results_view, Parser, TokenInfo};
use crate::scanner::{tokens_view, Token, TokenView};
use crate::text::copy_of;

verus! {

/// The lines cut so far, and the tokens of the line that is still open.
pub open spec fn gathered(tokens: Seq<TokenView>) -> (Seq<Seq<TokenView>>, Seq<TokenView>)
    decreases tokens.len(),
{
    if tokens.len() == 0 {
        (Seq::empty(), Seq::empty())
    } else {
        let (lines, open) = gathered(tokens.drop_last());
        if tokens.last() is NEWLINE {
            (
                if open.len() > 0 {
                    lines.push(open)
                } else {
                    lines
                },
                Seq::empty(),
            )
        } else {
            (lines, open.push(tokens.last()))
        }
    }
}

/// The lines of a text of tokens: the runs of tokens between its `NEWLINE`
/// tokens that are not empty.
pub open spec fn token_lines(tokens: Seq<TokenView>) -> Seq<Seq<TokenView>> {
    let (lines, open) = gathered(tokens);
    if open.len() > 0 {
        lines.push(open)
    } else {
        lines
    }
}

/// Where parsing some lines has led: the place reached in the last line, and
/// the result of every line.
pub struct Sweep {
    pub context: Context,
    pub cursor: Cursor,
    pub results: Seq<Result<ExprView, ParseErrorView>>,
}

/// Parsing the first `n` of the lines, one after another: each line gives one
/// result, its tree or its error, and hands the table of variables on to the
/// next.
pub open spec fn swept(base: Context, start: Cursor, lines: Seq<Seq<TokenView>>, n: nat) -> Sweep
    decreases n,
{
    if n == 0 {
        Sweep { context: base, cursor: start, results: Seq::empty() }
    } else {
        let before = swept(base, start, lines, (n - 1) as nat);
        let cx = Context { tokens: lines[n - 1], ..base };
        let p = parsed_line(cx, Cursor { pos: 0, ..before.cursor });
        Sweep {
            context: cx,
            cursor: p.cursor,
            results: before.results.push(p.result),
        }
    }
}

/// Every line gives one result, its own: what the line parses to from the
/// table of variables that the lines before it have left, whether those
/// ended in an error or not.
pub proof fn theorem_every_line_has_its_result(
    base: Context,
    start: Cursor,
    lines: Seq<Seq<TokenView>>,
    n: nat,
    i: nat,
)
    requires
        i < n,
    ensures
        swept(base, start, lines, n).results.len() == n,
        swept(base, start, lines, n).results[i as int] == parsed_line(
            Context { tokens: lines[i as int], ..base },
            Cursor { pos: 0, ..swept(base, start, lines, i).cursor },
        ).result,
    decreases n,
{
    if n >= 1 {
        lemma_swept_length(base, start, lines, (n - 1) as nat);
        if i + 1 < n {
            theorem_every_line_has_its_result(base, start, lines, (n - 1) as nat, i);
        }
    }
}

proof fn lemma_swept_length(base: Context, start: Cursor, lines: Seq<Seq<TokenView>>, n: nat)
    ensures
        swept(base, start, lines, n).results.len() == n,
    decreases n,
{
    if n >= 1 {
        lemma_swept_length(base, start, lines, (n - 1) as nat);
    }
}

/// The lines cut so far, each with the columns of its tokens; the line that
/// is still open; and the column that the next token starts at.
pub struct Layout {
    pub lines: Seq<(Seq<TokenView>, Seq<usize>)>,
    pub tokens: Seq<TokenView>,
    pub positions: Seq<usize>,
    pub column: usize,
}

/// The layout of a text of tokens. A line starts at column 1; a token moves
/// the column on by its length, a `WHITESPACE` token by one.
pub open spec fn laid_out(tokens: Seq<TokenView>) -> Layout
    decreases tokens.len(),
{
    if tokens.len() == 0 {
        Layout { lines: Seq::empty(), tokens: Seq::empty(), positions: Seq::empty(), column: 1 }
    } else {
        let l = laid_out(tokens.drop_last());
        let t = tokens.last();
        if t is NEWLINE {
            Layout {
                lines: if l.tokens.len() > 0 {
                    l.lines.push((l.tokens, l.positions))
                } else {
                    l.lines
                },
                tokens: Seq::empty(),
                positions: Seq::empty(),
                column: 1,
            }
        } else if t is WHITESPACE {
            Layout { column: plus(l.column, 1), ..l }
        } else {
            Layout {
                lines: l.lines,
                tokens: l.tokens.push(t),
                positions: l.positions.push(l.column),
                column: plus(l.column, token_length(t)),
            }
        }
    }
}

/// The lines of a text of tokens, each with the columns of its tokens.
pub open spec fn positioned_lines(tokens: Seq<TokenView>) -> Seq<(Seq<TokenView>, Seq<usize>)> {
    let l = laid_out(tokens);
    if l.tokens.len() > 0 {
        l.lines.push((l.tokens, l.positions))
    } else {
        l.lines
    }
}

/// Where reporting on some lines has led: the last line and the place
/// reached in it, and the report.
pub struct Told {
    pub context: Context,
    pub cursor: Cursor,
    pub output: Seq<Seq<char>>,
}

/// The report on the first `n` of the lines: for each its tree in brackets,
/// or the message of its error. The lines are numbered from one.
pub open spec fn told(
    base: Context,
    start: Cursor,
    lines: Seq<(Seq<TokenView>, Seq<usize>)>,
    n: nat,
) -> Told
    decreases n,
{
    if n == 0 {
        Told { context: base, cursor: start, output: Seq::empty() }
    } else {
        let before = told(base, start, lines, (n - 1) as nat);
        let cx = Context {
            tokens: lines[n - 1].0,
            positions: lines[n - 1].1,
            line: n as usize,
            reals: base.reals,
        };
        let p = parsed_line(cx, Cursor { pos: 0, column: 1, variables: before.cursor.variables });
        Told {
            context: cx,
            cursor: p.cursor,
            output: before.output.push(
                match p.result {
                    Ok(e) => rendered(e),
                    Err(e) => message(e),
                },
            ),
        }
    }
}

/// The lines that a vector of lines holds.
pub open spec fn line_views(v: Seq<Vec<Token>>) -> Seq<Seq<TokenView>> {
    v.map_values(|l: Vec<Token>| tokens_view(l@))
}

/// The lines with their columns that a vector of such lines holds.
pub open spec fn positioned_views(v: Seq<(Vec<Token>, Vec<usize>)>) -> Seq<
    (Seq<TokenView>, Seq<usize>),
> {
    v.map_values(|p: (Vec<Token>, Vec<usize>)| (tokens_view(p.0@), p.1@))
}

fn copy_tokens(v: &Vec<Token>) -> (r: Vec<Token>)
    ensures
        tokens_view(r@) == tokens_view(v@),
{
    let mut r: Vec<Token> = Vec::new();
    let mut i: usize = 0;
    while i < v.len()
        invariant
            i <= v.len(),
            r.len() == i,
            forall|j: int| 0 <= j < i ==> (#[trigger] r@[j])@ == v@[j]@,
        decreases v.len() - i,
    {
        r.push(v[i].copy());
        i += 1;
    }
    assert(tokens_view(r@) =~= tokens_view(v@));
    r
}

/// Cuts a text of tokens into its lines.
fn split_tokens(tokens: &Vec<Token>) -> (r: Vec<Vec<Token>>)
    ensures
        line_views(r@) == token_lines(tokens_view(tokens@)),
{
    let ghost all = tokens_view(tokens@);
    let mut lines: Vec<Vec<Token>> = Vec::new();
    let mut open: Vec<Token> = Vec::new();
    let mut i: usize = 0;
    assert(all.take(0) =~= Seq::<TokenView>::empty());
    assert(line_views(lines@) =~= Seq::<Seq<TokenView>>::empty());
    assert(tokens_view(open@) =~= Seq::<TokenView>::empty());
    while i < tokens.len()
        invariant
            i <= tokens.len(),
            all == tokens_view(tokens@),
            (line_views(lines@), tokens_view(open@)) == gathered(all.take(i as int)),
        decreases tokens.len() - i,
    {
        proof {
            let t = all.take(i + 1);
            assert(t.drop_last() =~= all.take(i as int));
            assert(t.last() == tokens@[i as int]@);
        }
        let ghost before_lines = line_views(lines@);
        let ghost before_open = tokens_view(open@);
        match &tokens[i] {
            Token::NEWLINE => {
                if open.len() > 0 {
                    lines.push(open);
                    assert(line_views(lines@) =~= before_lines.push(before_open));
                }
                open = Vec::new();
                assert(tokens_view(open@) =~= Seq::<TokenView>::empty());
            },
            t => {
                open.push(t.copy());
                assert(tokens_view(open@) =~= before_open.push(tokens@[i as int]@));
            },
        }
        i += 1;
    }
    assert(all.take(tokens.len() as int) =~= all);
    if open.len() > 0 {
        let ghost before_lines = line_views(lines@);
        let ghost before_open = tokens_view(open@);
        lines.push(open);
        assert(line_views(lines@) =~= before_lines.push(before_open));
    }
    lines
}

/// Cuts a text of tokens into its lines and finds the column of each token.
fn split_into_lines(tokens: &Vec<Token>) -> (r: Vec<(Vec<Token>, Vec<usize>)>)
    ensures
        positioned_views(r@) == positioned_lines(tokens_view(tokens@)),
{
    let ghost all = tokens_view(tokens@);
    let mut lines: Vec<(Vec<Token>, Vec<usize>)> = Vec::new();
    let mut open: Vec<Token> = Vec::new();
    let mut positions: Vec<usize> = Vec::new();
    let mut column: usize = 1;
    let mut i: usize = 0;
    assert(all.take(0) =~= Seq::<TokenView>::empty());
    assert(positioned_views(lines@) =~= Seq::<(Seq<TokenView>, Seq<usize>)>::empty());
    assert(tokens_view(open@) =~= Seq::<TokenView>::empty());
    while i < tokens.len()
        invariant
            i <= tokens.len(),
            all == tokens_view(tokens@),
            laid_out(all.take(i as int)) == (Layout {
                lines: positioned_views(lines@),
                tokens: tokens_view(open@),
                positions: positions@,
                column: column,
            }),
        decreases tokens.len() - i,
    {
        proof {
            let t = all.take(i + 1);
            assert(t.drop_last() =~= all.take(i as int));
            assert(t.last() == tokens@[i as int]@);
        }
        let ghost before_lines = positioned_views(lines@);
        let ghost before_open = tokens_view(open@);
        let ghost before_positions = positions@;
        match &tokens[i] {
            Token::NEWLINE => {
                if open.len() > 0 {
                    lines.push((open, positions));
                    assert(positioned_views(lines@) =~= before_lines.push(
                        (before_open, before_positions),
                    ));
                }
                open = Vec::new();
                positions = Vec::new();
                column = 1;
                assert(tokens_view(open@) =~= Seq::<TokenView>::empty());
            },
            Token::WHITESPACE => {
                column = add_capped(column, 1);
            },
            t => {
                positions.push(column);
                open.push(t.copy());
                column = add_capped(column, TokenInfo::token_length(t));
                assert(tokens_view(open@) =~= before_open.push(tokens@[i as int]@));
            },
        }
        i += 1;
    }
    assert(all.take(tokens.len() as int) =~= all);
    if open.len() > 0 {
        let ghost before_lines = positioned_views(lines@);
        let ghost before_open = tokens_view(open@);
        let ghost before_positions = positions@;
        lines.push((open, positions));
        assert(positioned_views(lines@) =~= before_lines.push((before_open, before_positions)));
    }
    lines
}

impl Parser {
    /// Parses a text of tokens line by line and gives the result of every
    /// line, in order. A line that cannot be parsed ends in its error and
    /// the next line is parsed all the same; an `ERR` token is a token like
    /// any other, at which the line it stands in fails.
    pub fn parse_tokens(&mut self, tokens: Vec<Token>) -> (r: Vec<Result<Expr, ParseError>>)
        ensures
            ({
                let lines = token_lines(tokens_view(tokens@));
                let s = swept(old(self).context(), old(self).cursor(), lines, lines.len());
                &&& r@.len() == lines.len()
                &&& results_view(r@) == s.results
                &&& final(self).context() == s.context
                &&& final(self).cursor() == s.cursor
            }),
    {
        let mut results: Vec<Result<Expr, ParseError>> = Vec::new();
        let lines = split_tokens(&tokens);
        let ghost views = token_lines(tokens_view(tokens@));
        let ghost base = self.context();
        let ghost start = self.cursor();
        let mut i: usize = 0;
        assert(results_view(results@) =~= Seq::<Result<ExprView, ParseErrorView>>::empty());
        while i < lines.len()
            invariant
                i <= lines.len(),
                results.len() == i,
                line_views(lines@) == views,
                results_view(results@) == swept(base, start, views, i as nat).results,
                self.context() == swept(base, start, views, i as nat).context,
                self.cursor() == swept(base, start, views, i as nat).cursor,
                self.context() == (Context { tokens: self.context().tokens, ..base }),
            decreases lines.len() - i,
        {
            assert(views[i as int] == tokens_view(lines@[i as int]@));
            self.restart(copy_tokens(&lines[i]));
            let result = self.parse();
            let ghost before = results_view(results@);
            let ghost shown = result_view(result);
            results.push(result);
            assert(results_view(results@) =~= before.push(shown));
            i += 1;
        }
        results
    }

    /// Parses a text of tokens line by line and gives for each line its tree
    /// in brackets, or the message of its error.
    pub fn parse_tokens_fancy(&mut self, input: Vec<Token>) -> (r: Vec<String>)
        ensures
            ({
                let lines = positioned_lines(tokens_view(input@));
                let t = told(old(self).context(), old(self).cursor(), lines, lines.len());
                &&& r.deep_view() == t.output
                &&& final(self).context() == t.context
                &&& final(self).cursor() == t.cursor
            }),
    {
        let lines = split_into_lines(&input);
        let ghost views = positioned_lines(tokens_view(input@));
        let ghost base = self.context();
        let ghost start = self.cursor();
        let mut output: Vec<String> = Vec::new();
        let mut i: usize = 0;
        assert(output.deep_view() =~= Seq::<Seq<char>>::empty());
        while i < lines.len()
            invariant
                i <= lines.len(),
                positioned_views(lines@) == views,
                output.deep_view() == told(base, start, views, i as nat).output,
                self.context() == told(base, start, views, i as nat).context,
                self.cursor() == told(base, start, views, i as nat).cursor,
                self.context().reals == base.reals,
            decreases lines.len() - i,
        {
            assert(views[i as int] == (tokens_view(lines@[i as int].0@), lines@[i as int].1@));
            self.setup_line_parsing(copy_tokens(&lines[i].0), copy_of(&lines[i].1), i + 1);
            let ghost before = output.deep_view();
            let line = match self.parse() {
                Ok(e) => e.to_string(),
                Err(e) => e.to_string(),
            };
            output.push(line);
            assert(output.deep_view() =~= before.push(line@));
            i += 1;
        }
        output
    }
}

} // verus!
