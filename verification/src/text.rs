//! Characters, decimal numerals and the small text operations the other
//! modules are built from. Text is handled as sequences of characters;
//! `String` appears only where a value enters or leaves the library.

use vstd::prelude::*;

verus! {

/// `String::push` of std appends the one character to the end of the string.
pub assume_specification[ String::push ](s: &mut String, c: char)
    ensures
        final(s)@ == old(s)@.push(c),
;

/// The characters of a string, one by one.
pub fn chars_of(s: &str) -> (v: Vec<char>)
    ensures
        v@ == s@,
{
    let mut v: Vec<char> = Vec::new();
    for c in it: s.chars()
        invariant
            it.seq() == s@,
            v@ == it.seq().take(it.index()),
    {
        v.push(c);
    }
    assert(v@ == s@);
    v
}

/// The string made of the characters `v[from..to]`.
pub fn string_of_range(v: &Vec<char>, from: usize, to: usize) -> (s: String)
    requires
        from <= to <= v.len(),
    ensures
        s@ == v@.subrange(from as int, to as int),
{
    let mut s = String::new();
    let mut i: usize = from;
    while i < to
        invariant
            from <= i <= to <= v.len(),
            s@ == v@.subrange(from as int, i as int),
        decreases to - i,
    {
        s.push(v[i]);
        assert(v@.subrange(from as int, i as int).push(v@[i as int]) == v@.subrange(
            from as int,
            i + 1,
        ));
        i += 1;
    }
    s
}

/// The string made of the characters of `v`.
pub fn string_of(v: &Vec<char>) -> (s: String)
    ensures
        s@ == v@,
{
    let s = string_of_range(v, 0, v.len());
    assert(v@.subrange(0, v.len() as int) == v@);
    s
}

/// Appends the characters of `s` to `out`.
pub fn push_str(out: &mut Vec<char>, s: &str)
    ensures
        final(out)@ == old(out)@ + s@,
{
    let v = chars_of(s);
    push_all(out, &v);
}

/// Appends the characters of `v` to `out`.
pub fn push_all(out: &mut Vec<char>, v: &Vec<char>)
    ensures
        final(out)@ == old(out)@ + v@,
{
    let ghost before = out@;
    let mut i: usize = 0;
    while i < v.len()
        invariant
            i <= v.len(),
            out@ == before + v@.take(i as int),
        decreases v.len() - i,
    {
        out.push(v[i]);
        assert(v@.take(i as int).push(v@[i as int]) == v@.take(i + 1));
        assert(before + v@.take(i as int).push(v@[i as int]) == (before + v@.take(
            i as int,
        )).push(v@[i as int]));
        i += 1;
    }
    assert(v@.take(v.len() as int) == v@);
}

/// White space as the scanner and the instruction decoder understand it:
/// the characters of Unicode's `White_Space` property.
pub open spec fn is_space(c: char) -> bool {
    ||| c == ' '
    ||| ('\u{9}' <= c && c <= '\u{d}')
    ||| c == '\u{85}'
    ||| c == '\u{a0}'
    ||| c == '\u{1680}'
    ||| ('\u{2000}' <= c && c <= '\u{200a}')
    ||| c == '\u{2028}'
    ||| c == '\u{2029}'
    ||| c == '\u{202f}'
    ||| c == '\u{205f}'
    ||| c == '\u{3000}'
}

/// Whether the character is white space.
pub fn space(c: char) -> (r: bool)
    ensures
        r == is_space(c),
{
    c == ' ' || ('\u{9}' <= c && c <= '\u{d}') || c == '\u{85}' || c == '\u{a0}' || c
        == '\u{1680}' || ('\u{2000}' <= c && c <= '\u{200a}') || c == '\u{2028}' || c
        == '\u{2029}' || c == '\u{202f}' || c == '\u{205f}' || c == '\u{3000}'
}

/// Whether the character is a decimal digit.
pub open spec fn is_digit(c: char) -> bool {
    '0' <= c && c <= '9'
}

/// Whether the character is a decimal digit.
pub fn digit(c: char) -> (r: bool)
    ensures
        r == is_digit(c),
{
    '0' <= c && c <= '9'
}

/// The value of a decimal digit.
pub open spec fn digit_value(c: char) -> int {
    c as int - '0' as int
}

/// The decimal digit of a value below ten.
pub open spec fn digit_char(d: int) -> char {
    if d == 0 {
        '0'
    } else if d == 1 {
        '1'
    } else if d == 2 {
        '2'
    } else if d == 3 {
        '3'
    } else if d == 4 {
        '4'
    } else if d == 5 {
        '5'
    } else if d == 6 {
        '6'
    } else if d == 7 {
        '7'
    } else if d == 8 {
        '8'
    } else {
        '9'
    }
}

/// The decimal digit of a value below ten.
pub fn digit_for(d: u64) -> (c: char)
    requires
        d < 10,
    ensures
        c == digit_char(d as int),
        is_digit(c),
        digit_value(c) == d,
{
    if d == 0 {
        '0'
    } else if d == 1 {
        '1'
    } else if d == 2 {
        '2'
    } else if d == 3 {
        '3'
    } else if d == 4 {
        '4'
    } else if d == 5 {
        '5'
    } else if d == 6 {
        '6'
    } else if d == 7 {
        '7'
    } else if d == 8 {
        '8'
    } else {
        '9'
    }
}

/// The value of a decimal digit.
pub fn value_of_digit(c: char) -> (d: u8)
    requires
        is_digit(c),
    ensures
        d as int == digit_value(c),
        d < 10,
{
    ((c as u32) - ('0' as u32)) as u8
}

/// The decimal numeral of a natural number, without leading zeros.
pub open spec fn decimal_nat(n: nat) -> Seq<char>
    decreases n,
{
    if n < 10 {
        seq![digit_char(n as int)]
    } else {
        decimal_nat(n / 10).push(digit_char((n % 10) as int))
    }
}

/// The decimal numeral of an integer: a minus sign before the numeral of a
/// negative number's magnitude.
pub open spec fn decimal(n: int) -> Seq<char> {
    if n < 0 {
        seq!['-'] + decimal_nat((-n) as nat)
    } else {
        decimal_nat(n as nat)
    }
}

/// Whether every character of the text is a decimal digit.
pub open spec fn all_digits(s: Seq<char>) -> bool {
    forall|i: int| 0 <= i < s.len() ==> is_digit(#[trigger] s[i])
}

/// The number that a text of decimal digits denotes.
pub open spec fn digits_value(s: Seq<char>) -> nat
    decreases s.len(),
{
    if s.len() == 0 {
        0
    } else {
        (digits_value(s.drop_last()) * 10 + digit_value(s.last())) as nat
    }
}

/// The integer that a text denotes: one or more decimal digits, with a sign
/// before them or none. A text of any other shape denotes nothing.
pub open spec fn integer_value(s: Seq<char>) -> Option<int> {
    if s.len() > 0 && (s[0] == '-' || s[0] == '+') {
        let d = s.skip(1);
        if d.len() > 0 && all_digits(d) {
            Some(
                if s[0] == '-' {
                    -(digits_value(d) as int)
                } else {
                    digits_value(d) as int
                },
            )
        } else {
            None
        }
    } else if s.len() > 0 && all_digits(s) {
        Some(digits_value(s) as int)
    } else {
        None
    }
}

/// The natural number that a text denotes: one or more decimal digits, with
/// a plus sign before them or none.
pub open spec fn natural_value(s: Seq<char>) -> Option<nat> {
    if s.len() > 0 && s[0] == '+' {
        let d = s.skip(1);
        if d.len() > 0 && all_digits(d) {
            Some(digits_value(d))
        } else {
            None
        }
    } else if s.len() > 0 && all_digits(s) {
        Some(digits_value(s))
    } else {
        None
    }
}

/// A numeral has no white space in it, and is not empty.
pub proof fn lemma_decimal_nat_digits(n: nat)
    ensures
        all_digits(decimal_nat(n)),
        decimal_nat(n).len() > 0,
        digits_value(decimal_nat(n)) == n,
    decreases n,
{
    if n < 10 {
        let s = decimal_nat(n);
        assert(s.drop_last().len() == 0);
        assert(digits_value(s.drop_last()) == 0);
        assert(digits_value(s) == n);
    } else {
        lemma_decimal_nat_digits(n / 10);
        let s = decimal_nat(n);
        assert(s.drop_last() == decimal_nat(n / 10));
        assert(digits_value(s) == n);
    }
}

/// Reading the numeral of an integer gives the integer back.
pub proof fn lemma_decimal_reads_back(n: int)
    ensures
        integer_value(decimal(n)) == Some(n),
        decimal(n).len() > 0,
        forall|i: int| 0 <= i < decimal(n).len() ==> !is_space(#[trigger] decimal(n)[i]),
        n >= 0 ==> natural_value(decimal(n)) == Some(n as nat),
        decimal(n)[0] != '#' && decimal(n)[0] != '@',
{
    let s = decimal(n);
    if n < 0 {
        lemma_decimal_nat_digits((-n) as nat);
        assert(s.skip(1) == decimal_nat((-n) as nat));
        assert forall|i: int| 0 <= i < s.len() implies !is_space(#[trigger] s[i]) by {
            if i > 0 {
                assert(s[i] == decimal_nat((-n) as nat)[i - 1]);
            }
        }
    } else {
        lemma_decimal_nat_digits(n as nat);
        assert(is_digit(s[0]));
    }
}

/// Appends the numeral of `n` to `out`.
pub fn push_decimal_u64(out: &mut Vec<char>, n: u64)
    ensures
        final(out)@ == old(out)@ + decimal_nat(n as nat),
    decreases n,
{
    if n >= 10 {
        push_decimal_u64(out, n / 10);
    }
    let ghost mid = out@;
    out.push(digit_for(n % 10));
    proof {
        if n >= 10 {
            assert(mid.push(digit_char((n % 10) as int)) == old(out)@ + decimal_nat(
                n as nat,
            ));
        } else {
            assert(mid.push(digit_char(n as int)) == old(out)@ + decimal_nat(n as nat));
        }
    }
}

/// The magnitude of a signed number.
pub fn magnitude(n: i64) -> (m: u64)
    ensures
        m as int == if n < 0 {
            -(n as int)
        } else {
            n as int
        },
{
    if n < 0 {
        ((-(n + 1)) as u64) + 1
    } else {
        n as u64
    }
}

/// Appends the numeral of `n` to `out`.
pub fn push_decimal_i64(out: &mut Vec<char>, n: i64)
    ensures
        final(out)@ == old(out)@ + decimal(n as int),
{
    if n < 0 {
        out.push('-');
        let ghost mid = out@;
        push_decimal_u64(out, magnitude(n));
        assert(mid + decimal_nat((-(n as int)) as nat) == old(out)@ + decimal(n as int));
    } else {
        push_decimal_u64(out, n as u64);
    }
}

/// The numeral of `n`.
pub fn decimal_of_i64(n: i64) -> (v: Vec<char>)
    ensures
        v@ == decimal(n as int),
{
    let mut v: Vec<char> = Vec::new();
    push_decimal_i64(&mut v, n);
    assert(Seq::<char>::empty() + decimal(n as int) == decimal(n as int));
    v
}

/// A longer text of digits denotes no smaller a number than its beginning.
pub proof fn lemma_digits_value_grows(s: Seq<char>, k: int)
    requires
        0 <= k <= s.len(),
        all_digits(s),
    ensures
        digits_value(s.take(k)) <= digits_value(s),
    decreases s.len() - k,
{
    if k == s.len() {
        assert(s.take(k) == s);
    } else {
        lemma_digits_value_grows(s, k + 1);
        let t = s.take(k + 1);
        assert(t.drop_last() == s.take(k));
        assert(is_digit(s[k]));
        assert(t.last() == s[k]);
    }
}

/// Reads the digits `s[from..]` as a number no greater than `limit`; `None`
/// where a character is no digit, there is no digit at all, or the number is
/// greater.
pub fn read_digits(s: &Vec<char>, from: usize, limit: u128) -> (r: Option<u128>)
    requires
        from <= s.len(),
        limit <= 0xffff_ffff_ffff_ffff_ffff,
    ensures
        r is Some <==> (from < s.len() && all_digits(s@.skip(from as int)) && digits_value(
            s@.skip(from as int),
        ) <= limit),
        r is Some ==> r->0 == digits_value(s@.skip(from as int)),
{
    let ghost d = s@.skip(from as int);
    if from >= s.len() {
        return None;
    }
    let mut acc: u128 = 0;
    let mut i: usize = from;
    while i < s.len()
        invariant
            from <= i <= s.len(),
            d == s@.skip(from as int),
            all_digits(d.take(i - from)),
            acc == digits_value(d.take(i - from)),
            acc <= limit <= 0xffff_ffff_ffff_ffff_ffff,
        decreases s.len() - i,
    {
        let c = s[i];
        assert(d[i - from] == c);
        if !digit(c) {
            return None;
        }
        let v = value_of_digit(c);
        let next = acc * 10 + (v as u128);
        proof {
            let t = d.take(i - from + 1);
            assert(t.drop_last() == d.take(i - from));
            assert(t.last() == c);
            assert(digits_value(t) == next);
            assert forall|j: int| 0 <= j < t.len() implies is_digit(#[trigger] t[j]) by {
                if j < i - from {
                    assert(t[j] == d.take(i - from)[j]);
                }
            }
        }
        if next > limit {
            proof {
                if all_digits(d) {
                    lemma_digits_value_grows(d, i - from + 1);
                }
            }
            return None;
        }
        acc = next;
        i += 1;
    }
    assert(d.take(i - from) == d);
    Some(acc)
}

/// Where the word that starts at `i` ends: the first place from `i` on that
/// holds white space, or the end of the text.
pub open spec fn word_end(s: Seq<char>, i: int) -> int
    decreases s.len() - i,
{
    if i < 0 || i >= s.len() || is_space(s[i]) {
        i
    } else {
        word_end(s, i + 1)
    }
}

/// The words of `s` from place `i` on.
pub open spec fn words_from(s: Seq<char>, i: int) -> Seq<Seq<char>>
    decreases s.len() - i,
{
    if i < 0 || i >= s.len() {
        Seq::empty()
    } else if is_space(s[i]) {
        words_from(s, i + 1)
    } else {
        let e = word_end(s, i);
        if i < e <= s.len() {
            seq![s.subrange(i, e)] + words_from(s, e)
        } else {
            Seq::empty()
        }
    }
}

/// The words of a text: its longest runs of characters that are not white
/// space, in order.
pub open spec fn words(s: Seq<char>) -> Seq<Seq<char>> {
    words_from(s, 0)
}

/// Whether a text is a word: not empty, and without white space.
pub open spec fn is_word(w: Seq<char>) -> bool {
    w.len() > 0 && forall|i: int| 0 <= i < w.len() ==> !is_space(#[trigger] w[i])
}

/// The words put one after another with one blank between two of them.
pub open spec fn join_words(ws: Seq<Seq<char>>) -> Seq<char>
    decreases ws.len(),
{
    if ws.len() == 0 {
        Seq::empty()
    } else if ws.len() == 1 {
        ws[0]
    } else {
        ws[0] + seq![' '] + join_words(ws.skip(1))
    }
}

/// A word ends inside the text, holds no white space, and ends at white
/// space or at the end of the text.
pub proof fn lemma_word_end_bounds(s: Seq<char>, i: int)
    requires
        0 <= i <= s.len(),
    ensures
        i <= word_end(s, i) <= s.len(),
        forall|j: int| i <= j < word_end(s, i) ==> !is_space(#[trigger] s[j]),
        word_end(s, i) < s.len() ==> is_space(s[word_end(s, i)]),
    decreases s.len() - i,
{
    if i < s.len() && !is_space(s[i]) {
        lemma_word_end_bounds(s, i + 1);
    }
}

/// The word that ends at white space or at the end of the text ends there.
pub proof fn lemma_word_end_is(s: Seq<char>, i: int, e: int)
    requires
        0 <= i <= e <= s.len(),
        forall|j: int| i <= j < e ==> !is_space(#[trigger] s[j]),
        e < s.len() ==> is_space(s[e]),
    ensures
        word_end(s, i) == e,
    decreases e - i,
{
    if i < e {
        lemma_word_end_is(s, i + 1, e);
    }
}

/// Text put in front of a text does not change the words found behind it.
pub proof fn lemma_words_from_shift(p: Seq<char>, s: Seq<char>, i: int)
    requires
        0 <= i <= s.len(),
    ensures
        words_from(p + s, p.len() + i) == words_from(s, i),
    decreases s.len() - i,
{
    let t = p + s;
    if i < s.len() {
        assert(t[p.len() + i] == s[i]);
        if is_space(s[i]) {
            lemma_words_from_shift(p, s, i + 1);
        } else {
            lemma_word_end_bounds(s, i);
            let e = word_end(s, i);
            assert forall|j: int| p.len() + i <= j < p.len() + e implies !is_space(
                #[trigger] t[j],
            ) by {
                assert(t[j] == s[j - p.len()]);
            }
            if e < s.len() {
                assert(t[p.len() + e] == s[e]);
            }
            lemma_word_end_is(t, p.len() + i, p.len() + e);
            assert(t.subrange(p.len() + i, p.len() + e) == s.subrange(i, e));
            lemma_words_from_shift(p, s, e);
        }
    }
}

/// The words of joined words are the words that were joined.
pub proof fn lemma_words_of_join(ws: Seq<Seq<char>>)
    requires
        forall|i: int| 0 <= i < ws.len() ==> is_word(#[trigger] ws[i]),
    ensures
        words(join_words(ws)) == ws,
    decreases ws.len(),
{
    let s = join_words(ws);
    if ws.len() == 0 {
    } else if ws.len() == 1 {
        let w = ws[0];
        assert(is_word(w));
        lemma_word_end_is(w, 0, w.len() as int);
        assert(w.subrange(0, w.len() as int) == w);
        assert(words_from(w, w.len() as int) == Seq::<Seq<char>>::empty());
        assert(seq![w] + Seq::<Seq<char>>::empty() == ws);
    } else {
        let w = ws[0];
        let rest = join_words(ws.skip(1));
        assert(is_word(w));
        assert forall|i: int| 0 <= i < ws.skip(1).len() implies is_word(
            #[trigger] ws.skip(1)[i],
        ) by {
            assert(ws.skip(1)[i] == ws[i + 1]);
        }
        lemma_words_of_join(ws.skip(1));
        let head = w + seq![' '];
        assert(s == head + rest);
        assert forall|j: int| 0 <= j < w.len() implies !is_space(#[trigger] s[j]) by {
            assert(s[j] == w[j]);
        }
        assert(s[w.len() as int] == ' ');
        lemma_word_end_is(s, 0, w.len() as int);
        assert(s.subrange(0, w.len() as int) == w);
        assert(words_from(s, w.len() as int) == words_from(s, w.len() as int + 1));
        lemma_words_from_shift(head, rest, 0);
        assert(words_from(s, w.len() as int + 1) == ws.skip(1));
        assert(seq![w] + ws.skip(1) == ws);
    }
}

/// The words of a text.
pub fn split_words(s: &Vec<char>) -> (r: Vec<String>)
    ensures
        r.deep_view() == words(s@),
{
    let mut out: Vec<String> = Vec::new();
    let mut i: usize = 0;
    assert(out.deep_view() == Seq::<Seq<char>>::empty());
    while i < s.len()
        invariant
            i <= s.len(),
            out.deep_view() + words_from(s@, i as int) == words(s@),
        decreases s.len() - i,
    {
        if space(s[i]) {
            i += 1;
        } else {
            let start = i;
            while i < s.len() && !space(s[i])
                invariant
                    start <= i <= s.len(),
                    word_end(s@, i as int) == word_end(s@, start as int),
                decreases s.len() - i,
            {
                i += 1;
            }
            proof {
                lemma_word_end_bounds(s@, start as int);
            }
            let w = string_of_range(s, start, i);
            let ghost before = out.deep_view();
            out.push(w);
            proof {
                assert(out.deep_view() == before.push(w@));
                assert(before.push(w@) + words_from(s@, i as int) == before + (seq![w@]
                    + words_from(s@, i as int)));
            }
        }
    }
    assert(words_from(s@, s.len() as int) == Seq::<Seq<char>>::empty());
    assert(out.deep_view() + Seq::<Seq<char>>::empty() == out.deep_view());
    out
}

/// Reads a text as a natural number no greater than `limit`.
pub fn read_natural(s: &Vec<char>, limit: u128) -> (r: Option<u128>)
    requires
        limit <= 0xffff_ffff_ffff_ffff_ffff,
    ensures
        r is Some <==> (natural_value(s@) is Some && natural_value(s@)->0 <= limit),
        r is Some ==> r->0 == natural_value(s@)->0,
{
    if s.len() > 0 && s[0] == '+' {
        read_digits(s, 1, limit)
    } else {
        assert(s@.skip(0) == s@);
        let r = read_digits(s, 0, limit);
        proof {
            if s.len() > 0 && all_digits(s@) {
                assert(is_digit(s@[0]));
            }
        }
        r
    }
}

/// Reads a text as an integer from `-low` to `high`.
pub fn read_integer(s: &Vec<char>, low: u64, high: u64) -> (r: Option<i128>)
    ensures
        r is Some <==> (integer_value(s@) is Some && -low <= integer_value(s@)->0 <= high),
        r is Some ==> r->0 == integer_value(s@)->0,
{
    if s.len() > 0 && s[0] == '-' {
        match read_digits(s, 1, low as u128) {
            Some(v) => Some(-(v as i128)),
            None => None,
        }
    } else if s.len() > 0 && s[0] == '+' {
        match read_digits(s, 1, high as u128) {
            Some(v) => Some(v as i128),
            None => None,
        }
    } else {
        assert(s@.skip(0) == s@);
        let r = read_digits(s, 0, high as u128);
        proof {
            if s.len() > 0 && all_digits(s@) {
                assert(is_digit(s@[0]));
            }
        }
        match r {
            Some(v) => Some(v as i128),
            None => None,
        }
    }
}

/// Where a line that starts at `i` ends: at the next line feed, or at the end
/// of the text.
pub open spec fn line_end(s: Seq<char>, i: int) -> int
    decreases s.len() - i,
{
    if i < 0 || i >= s.len() || s[i] == '\n' {
        i
    } else {
        line_end(s, i + 1)
    }
}

/// The lines of `s` from place `i` on.
pub open spec fn lines_from(s: Seq<char>, i: int) -> Seq<Seq<char>>
    decreases s.len() - i,
{
    if i < 0 || i >= s.len() {
        Seq::empty()
    } else {
        let e = line_end(s, i);
        if i <= e < s.len() {
            seq![s.subrange(i, e)] + lines_from(s, e + 1)
        } else {
            seq![s.subrange(i, s.len() as int)]
        }
    }
}

/// The lines of a text: what stands between its line feeds. A line feed at
/// the very end opens no further line.
pub open spec fn lines(s: Seq<char>) -> Seq<Seq<char>> {
    lines_from(s, 0)
}

/// The texts that a vector of texts holds.
pub open spec fn texts(v: Seq<Vec<char>>) -> Seq<Seq<char>> {
    v.map_values(|t: Vec<char>| t@)
}

/// The lines of a text.
pub fn split_lines(s: &Vec<char>) -> (r: Vec<Vec<char>>)
    ensures
        texts(r@) == lines(s@),
{
    let mut out: Vec<Vec<char>> = Vec::new();
    let mut i: usize = 0;
    assert(texts(out@) =~= Seq::<Seq<char>>::empty());
    while i < s.len()
        invariant
            i <= s.len(),
            texts(out@) + lines_from(s@, i as int) == lines(s@),
        decreases s.len() - i,
    {
        let start = i;
        let mut line: Vec<char> = Vec::new();
        while i < s.len() && s[i] != '\n'
            invariant
                start <= i <= s.len(),
                line_end(s@, i as int) == line_end(s@, start as int),
                line@ == s@.subrange(start as int, i as int),
            decreases s.len() - i,
        {
            line.push(s[i]);
            assert(s@.subrange(start as int, i as int).push(s@[i as int]) == s@.subrange(
                start as int,
                i + 1,
            ));
            i += 1;
        }
        let ghost before = texts(out@);
        let ghost l = line@;
        out.push(line);
        proof {
            assert(texts(out@) =~= before.push(l));
        }
        if i < s.len() {
            proof {
                assert(before.push(l) + lines_from(s@, i + 1) == before + (seq![l]
                    + lines_from(s@, i + 1)));
            }
            i += 1;
        } else {
            proof {
                assert(lines_from(s@, i as int) == Seq::<Seq<char>>::empty());
                assert(before.push(l) + Seq::<Seq<char>>::empty() == before + seq![l]);
            }
        }
    }
    assert(lines_from(s@, s.len() as int) == Seq::<Seq<char>>::empty());
    assert(texts(out@) + Seq::<Seq<char>>::empty() == texts(out@));
    out
}

/// Where the text without its leading white space starts.
pub open spec fn trim_start(s: Seq<char>, i: int) -> int
    decreases s.len() - i,
{
    if i < 0 || i >= s.len() || !is_space(s[i]) {
        i
    } else {
        trim_start(s, i + 1)
    }
}

/// Where the text `s[from..i]` without its trailing white space ends.
pub open spec fn trim_end(s: Seq<char>, from: int, i: int) -> int
    decreases i,
{
    if i <= 0 || i <= from || i > s.len() || !is_space(s[i - 1]) {
        i
    } else {
        trim_end(s, from, i - 1)
    }
}

/// The text without the white space at its two ends.
pub open spec fn trimmed(s: Seq<char>) -> Seq<char> {
    let a = trim_start(s, 0);
    let b = trim_end(s, a, s.len() as int);
    if 0 <= a <= b <= s.len() {
        s.subrange(a, b)
    } else {
        Seq::empty()
    }
}

/// The text without the white space at its two ends.
pub fn trim(s: &Vec<char>) -> (r: Vec<char>)
    ensures
        r@ == trimmed(s@),
{
    let mut a: usize = 0;
    while a < s.len() && space(s[a])
        invariant
            a <= s.len(),
            trim_start(s@, a as int) == trim_start(s@, 0),
        decreases s.len() - a,
    {
        a += 1;
    }
    let mut b: usize = s.len();
    while b > a && space(s[b - 1])
        invariant
            a <= b <= s.len(),
            trim_end(s@, a as int, b as int) == trim_end(s@, a as int, s.len() as int),
        decreases b,
    {
        b -= 1;
    }
    let mut out: Vec<char> = Vec::new();
    let mut i: usize = a;
    while i < b
        invariant
            a <= i <= b <= s.len(),
            out@ == s@.subrange(a as int, i as int),
        decreases b - i,
    {
        out.push(s[i]);
        assert(s@.subrange(a as int, i as int).push(s@[i as int]) == s@.subrange(
            a as int,
            i + 1,
        ));
        i += 1;
    }
    out
}

/// Appends the numeral of `n` to `out`.
pub fn push_decimal_u128(out: &mut Vec<char>, n: u128)
    ensures
        final(out)@ == old(out)@ + decimal_nat(n as nat),
    decreases n,
{
    if n >= 10 {
        push_decimal_u128(out, n / 10);
    }
    let ghost mid = out@;
    out.push(digit_for((n % 10) as u64));
    proof {
        if n >= 10 {
            assert(mid.push(digit_char((n % 10) as int)) == old(out)@ + decimal_nat(
                n as nat,
            ));
        } else {
            assert(mid.push(digit_char(n as int)) == old(out)@ + decimal_nat(n as nat));
        }
    }
}

/// Appends the numeral of `n` to `out`.
pub fn push_decimal_i128(out: &mut Vec<char>, n: i128)
    requires
        -0x8000_0000_0000_0000_0000 <= n <= 0x8000_0000_0000_0000_0000,
    ensures
        final(out)@ == old(out)@ + decimal(n as int),
{
    if n < 0 {
        out.push('-');
        let ghost mid = out@;
        push_decimal_u128(out, (-n) as u128);
        assert(mid + decimal_nat((-(n as int)) as nat) == old(out)@ + decimal(n as int));
    } else {
        push_decimal_u128(out, n as u128);
    }
}

/// The same texts once more.
pub fn copy_lines(v: &Vec<String>) -> (r: Vec<String>)
    ensures
        r.deep_view() == v.deep_view(),
{
    let mut out: Vec<String> = Vec::new();
    let mut i: usize = 0;
    while i < v.len()
        invariant
            i <= v.len(),
            out.deep_view() == v.deep_view().take(i as int),
        decreases v.len() - i,
    {
        let ghost before = out.deep_view();
        out.push(v[i].clone());
        assert(out.deep_view() =~= before.push(v[i as int]@));
        assert(v.deep_view().take(i + 1) =~= v.deep_view().take(i as int).push(v[i as int]@));
        i += 1;
    }
    assert(v.deep_view().take(v.len() as int) =~= v.deep_view());
    out
}

/// The same elements in a vector of their own.
pub fn copy_of<T: Copy>(v: &Vec<T>) -> (r: Vec<T>)
    ensures
        r@ == v@,
{
    let mut r: Vec<T> = Vec::new();
    let mut i: usize = 0;
    while i < v.len()
        invariant
            i <= v.len(),
            r@ == v@.take(i as int),
        decreases v.len() - i,
    {
        r.push(v[i]);
        assert(v@.take(i + 1) == v@.take(i as int).push(v@[i as int]));
        i += 1;
    }
    assert(v@.take(v.len() as int) == v@);
    r
}

} // verus!
