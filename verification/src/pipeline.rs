//! The parts put together: from the results of the parser to one listing of
//! instruction lines.

use vstd::prelude::*;
use crate::ast::{Expr, ExprView, ParseError, ParseErrorView};
use crate::codegen::{assembly, generate_assembly};
use crate::parser::{result_view, results_view};

verus! {

/// The listing of the first `n` results. The lines of a tree follow an empty
/// line, but at the very start; an error gives the line `ERROR`, behind an
/// empty line unless the listing is empty or ends in one.
pub open spec fn listed(results: Seq<Result<ExprView, ParseErrorView>>, n: nat) -> Seq<Seq<char>>
    decreases n,
{
    if n == 0 {
        Seq::empty()
    } else {
        let before = listed(results, (n - 1) as nat);
        match results[n - 1] {
            Ok(e) => (if before.len() > 0 {
                before.push(Seq::empty())
            } else {
                before
            }) + assembly(e),
            Err(_) => (if before.len() > 0 && before.last().len() > 0 {
                before.push(Seq::empty())
            } else {
                before
            }).push("ERROR"@),
        }
    }
}

/// The listing of a parsed text: the lines of every result, and an empty
/// line at the end.
pub open spec fn listing(results: Seq<Result<ExprView, ParseErrorView>>) -> Seq<Seq<char>> {
    listed(results, results.len()).push(Seq::empty())
}

fn push_line(out: &mut Vec<String>, line: String)
    ensures
        final(out).deep_view() == old(out).deep_view().push(line@),
{
    let ghost before = out.deep_view();
    out.push(line);
    assert(out.deep_view() =~= before.push(line@));
}

fn push_lines(out: &mut Vec<String>, lines: Vec<String>)
    ensures
        final(out).deep_view() == old(out).deep_view() + lines.deep_view(),
{
    let ghost before = out.deep_view();
    let mut i: usize = 0;
    assert(lines.deep_view().take(0) =~= Seq::<Seq<char>>::empty());
    assert(before + Seq::<Seq<char>>::empty() =~= before);
    while i < lines.len()
        invariant
            i <= lines.len(),
            out.deep_view() == before + lines.deep_view().take(i as int),
        decreases lines.len() - i,
    {
        push_line(out, lines[i].clone());
        assert(lines.deep_view()[i as int] == lines[i as int]@);
        assert(before + lines.deep_view().take(i + 1) =~= (before + lines.deep_view().take(
            i as int,
        )).push(lines[i as int]@));
        i += 1;
    }
    assert(lines.deep_view().take(lines.len() as int) =~= lines.deep_view());
}

/// The listing of a parsed text.
pub fn generate_code(parsed_data: Vec<Result<Expr, ParseError>>) -> (r: Vec<String>)
    ensures
        r.deep_view() == listing(results_view(parsed_data@)),
{
    let ghost results = results_view(parsed_data@);
    let mut result: Vec<String> = Vec::new();
    let mut i: usize = 0;
    assert(result.deep_view() =~= Seq::<Seq<char>>::empty());
    while i < parsed_data.len()
        invariant
            i <= parsed_data.len(),
            results == results_view(parsed_data@),
            result.deep_view() == listed(results, i as nat),
        decreases parsed_data.len() - i,
    {
        assert(results[i as int] == result_view(parsed_data@[i as int]));
        match &parsed_data[i] {
            Ok(expr) => {
                let instructions = generate_assembly(expr);
                if result.len() > 0 {
                    push_line(&mut result, String::new());
                }
                push_lines(&mut result, instructions);
            },
            Err(_) => {
                let ends_in_text = if result.len() > 0 {
                    assert(result.deep_view()[result.len() - 1] == result[result.len() - 1]@);
                    result[result.len() - 1].as_str().unicode_len() > 0
                } else {
                    false
                };
                if ends_in_text {
                    push_line(&mut result, String::new());
                }
                push_line(&mut result, String::from_str("ERROR"));
            },
        }
        i += 1;
    }
    push_line(&mut result, String::new());
    result
}

} // verus!
