//! Reading the text of a program into its lines.

use vstd::prelude::*;
use crate::text::{chars_of, lines, split_lines, string_of, texts, trim, trimmed};

verus! {

/// Whether a trimmed line belongs to the program: it is not empty and is no
/// comment, which starts with two slashes.
pub open spec fn is_program_line(l: Seq<char>) -> bool {
    l.len() > 0 && !(l.len() >= 2 && l[0] == '/' && l[1] == '/')
}

/// The lines of a program text: each line without the white space at its
/// ends, empty lines and comments left out.
pub open spec fn program_lines(input: Seq<char>) -> Seq<Seq<char>> {
    lines(input).map_values(|l: Seq<char>| trimmed(l)).filter(|l: Seq<char>| is_program_line(l))
}

/// Reads the text of a program into its lines. Every text can be read.
pub fn parse_iloc(input: &str) -> (r: Result<Vec<String>, String>)
    ensures
        r is Ok,
        r->Ok_0.deep_view() == program_lines(input@),
{
    let s = chars_of(input);
    let ls = split_lines(&s);
    let ghost all = lines(input@).map_values(|l: Seq<char>| trimmed(l));
    let ghost keep = |l: Seq<char>| is_program_line(l);
    let mut program: Vec<String> = Vec::new();
    let mut i: usize = 0;
    assert(program.deep_view() =~= Seq::<Seq<char>>::empty());
    assert(all.take(0) =~= Seq::<Seq<char>>::empty());
    while i < ls.len()
        invariant
            i <= ls.len(),
            texts(ls@) == lines(input@),
            all == lines(input@).map_values(|l: Seq<char>| trimmed(l)),
            keep == (|l: Seq<char>| is_program_line(l)),
            program.deep_view() == all.take(i as int).filter(keep),
        decreases ls.len() - i,
    {
        let line = trim(&ls[i]);
        proof {
            assert(texts(ls@)[i as int] == ls@[i as int]@);
            assert(all[i as int] == line@);
            reveal(Seq::filter);
            assert(all.take(i + 1).drop_last() =~= all.take(i as int));
            assert(all.take(i + 1).last() == line@);
        }
        let comment = line.len() >= 2 && line[0] == '/' && line[1] == '/';
        if line.len() > 0 && !comment {
            let ghost before = program.deep_view();
            program.push(string_of(&line));
            assert(program.deep_view() =~= before.push(line@));
        }
        i += 1;
    }
    assert(all.take(ls.len() as int) =~= all);
    Ok(program)
}

} // verus!
