//! Real numbers as the library carries them.
//!
//! The library does no arithmetic on real numbers. A `Real` holds a binary64
//! bit pattern together with the two decimal renderings that the printer and
//! the code generator write out; whoever makes a `Real` from a number fills in
//! all three. What can be read off the bit pattern with whole-number
//! arithmetic (sign, zero, wholeness, order, truncation) is computed here, as
//! is the `Real` of a whole number.

use vstd::prelude::*;
use crate::text::{chars_of, decimal, decimal_of_i64, push_all, push_str, string_of};

verus! {

/// A real number: its binary64 bit pattern, its shortest decimal rendering
/// (`text`) and its rendering with one digit after the point (`fixed`).
#[derive(Debug, Clone, PartialEq)]
pub struct Real {
    pub bits: u64,
    pub text: String,
    pub fixed: String,
}

/// A real number with its renderings as sequences of characters.
pub struct RealView {
    pub bits: u64,
    pub text: Seq<char>,
    pub fixed: Seq<char>,
}

impl View for Real {
    type V = RealView;

    open spec fn view(&self) -> RealView {
        RealView { bits: self.bits, text: self.text@, fixed: self.fixed@ }
    }
}

/// The bit of the sign.
pub const SIGN_BIT: u64 = 0x8000_0000_0000_0000;

/// Two to the 52: the leading bit of a significand, which the pattern leaves
/// out.
pub const HIDDEN_BIT: u64 = 0x10_0000_0000_0000;

/// Two to the 53: the first number that a significand does not hold.
pub const FULL_SIGNIFICAND: u64 = 0x20_0000_0000_0000;

/// Two to the power `k`.
pub open spec fn two_to(k: nat) -> nat
    decreases k,
{
    if k == 0 {
        1
    } else {
        2 * two_to((k - 1) as nat)
    }
}

/// Whether the bit of the sign is set.
pub open spec fn sign_set(bits: u64) -> bool {
    bits >= SIGN_BIT
}

/// The eleven exponent bits of a pattern, as a number.
pub open spec fn exponent_field(bits: u64) -> int {
    (bits as int / HIDDEN_BIT as int) % 2048
}

/// The fifty-two fraction bits of a pattern, as a number.
pub open spec fn fraction_field(bits: u64) -> int {
    bits as int % HIDDEN_BIT as int
}

/// Whether the pattern is that of no number.
pub open spec fn is_nan(bits: u64) -> bool {
    exponent_field(bits) == 2047 && fraction_field(bits) != 0
}

/// Zero of either sign.
pub open spec fn is_zero(bits: u64) -> bool {
    bits == 0 || bits == SIGN_BIT
}

/// Below zero: the sign is set and the number is neither a zero nor a NaN.
pub open spec fn is_negative(bits: u64) -> bool {
    sign_set(bits) && !is_zero(bits) && !is_nan(bits)
}

/// Whether the number is finite and has no fractional part.
pub open spec fn is_whole(bits: u64) -> bool {
    let e = exponent_field(bits);
    let f = fraction_field(bits);
    if e == 2047 {
        false
    } else if e >= 1075 {
        true
    } else if e < 1023 {
        e == 0 && f == 0
    } else {
        (HIDDEN_BIT as int + f) % (two_to((1075 - e) as nat) as int) == 0
    }
}

/// The number cut off towards zero and held to the range of `i32`; zero for a
/// NaN.
pub open spec fn truncated(bits: u64) -> int {
    let e = exponent_field(bits);
    let f = fraction_field(bits);
    if is_nan(bits) || e < 1023 {
        0
    } else if e >= 1054 {
        if sign_set(bits) {
            i32::MIN as int
        } else {
            i32::MAX as int
        }
    } else {
        let whole = (HIDDEN_BIT as int + f) / (two_to((1075 - e) as nat) as int);
        if sign_set(bits) {
            -whole
        } else {
            whole
        }
    }
}

/// A whole number that grows with the real number: the magnitude bits, taken
/// negative where the sign is set. Both zeros have the key zero.
pub open spec fn order_key(bits: u64) -> int {
    if sign_set(bits) {
        -(bits as int - SIGN_BIT as int)
    } else {
        bits as int
    }
}

/// `a < b` on real numbers; false where either is a NaN.
pub open spec fn real_lt(a: u64, b: u64) -> bool {
    !is_nan(a) && !is_nan(b) && order_key(a) < order_key(b)
}

/// `a == b` on real numbers; false where either is a NaN.
pub open spec fn real_eq(a: u64, b: u64) -> bool {
    !is_nan(a) && !is_nan(b) && order_key(a) == order_key(b)
}

/// The pattern with the sign flipped.
pub open spec fn flipped(bits: u64) -> u64 {
    if sign_set(bits) {
        (bits - SIGN_BIT) as u64
    } else {
        (bits + SIGN_BIT) as u64
    }
}

/// A rendering with its sign flipped: a leading minus is taken away, or one is
/// put in front.
pub open spec fn flipped_text(s: Seq<char>) -> Seq<char> {
    if s.len() > 0 && s[0] == '-' {
        s.skip(1)
    } else {
        seq!['-'] + s
    }
}

/// The negation of a real number. A NaN keeps its renderings, which show no
/// sign.
pub open spec fn negated(r: RealView) -> RealView {
    if is_nan(r.bits) {
        RealView { bits: flipped(r.bits), text: r.text, fixed: r.fixed }
    } else {
        RealView {
            bits: flipped(r.bits),
            text: flipped_text(r.text),
            fixed: flipped_text(r.fixed),
        }
    }
}

/// The absolute value of a real number.
pub open spec fn absolute(r: RealView) -> RealView {
    if sign_set(r.bits) {
        negated(r)
    } else {
        r
    }
}

/// How often a number is halved until it is below two to the 53.
pub open spec fn halvings(q: nat) -> nat
    decreases q,
{
    if q < FULL_SIGNIFICAND as nat {
        0
    } else {
        1 + halvings(q / 2)
    }
}

/// What is left of a number once it has been halved to below two to the 53.
pub open spec fn halved(q: nat) -> nat
    decreases q,
{
    if q < FULL_SIGNIFICAND as nat {
        q
    } else {
        halved(q / 2)
    }
}

/// Whether rounding a whole number to 53 significant bits goes up: more than
/// half a unit is cut off, or exactly half and the kept part is odd.
pub open spec fn rounds_up(m: nat) -> bool {
    let k = halvings(m);
    let q = halved(m);
    let unit = two_to(k);
    let rest = m - q * unit;
    k > 0 && (2 * rest > unit || (2 * rest == unit && q % 2 == 1))
}

/// The 53 significant bits that a whole number is rounded to.
pub open spec fn kept(m: nat) -> nat {
    if rounds_up(m) {
        halved(m) + 1
    } else {
        halved(m)
    }
}

/// The whole number that binary64 holds in place of `m`: `m` itself where 53
/// bits are enough for it, else the nearest number of 53 significant bits,
/// a tie going to the even one.
pub open spec fn nearest_whole(m: nat) -> nat {
    kept(m) * two_to(halvings(m))
}

/// A significand below two to the 52 is doubled, and its exponent lowered,
/// until it has 53 bits.
pub open spec fn raised(s: nat, e: int) -> (nat, int)
    decreases 0x20_0000_0000_0000 - s,
{
    if s == 0 || s >= 0x10_0000_0000_0000 {
        (s, e)
    } else {
        raised(2 * s, e - 1)
    }
}

/// The bit pattern of the positive whole number `m` in binary64.
pub open spec fn whole_bits(m: nat) -> nat {
    let k = halvings(m);
    let q = kept(m);
    let (s, e) = if q == FULL_SIGNIFICAND as nat {
        (HIDDEN_BIT as nat, 1076 + k as int)
    } else {
        raised(q, 1075 + k as int)
    };
    if m == 0 {
        0
    } else {
        (e * HIDDEN_BIT as nat + s - HIDDEN_BIT as nat) as nat
    }
}

/// The bit pattern of a whole number in binary64: of the number itself
/// where 53 bits hold it, else of the nearest number that binary64 holds.
pub open spec fn int_bits(n: int) -> u64 {
    if n < 0 {
        (whole_bits((-n) as nat) + SIGN_BIT as nat) as u64
    } else {
        whole_bits(n as nat) as u64
    }
}

/// The real number that an integer of 32 bits becomes. Its renderings are
/// its numeral, and its numeral with `.0` behind it.
pub open spec fn real_of_int(n: int) -> RealView {
    RealView { bits: int_bits(n), text: decimal(n), fixed: decimal(n) + ".0"@ }
}

/// Whether the bit of the sign is set.
pub fn has_sign(bits: u64) -> (r: bool)
    ensures
        r == sign_set(bits),
{
    bits >= SIGN_BIT
}

/// The exponent bits of a pattern.
pub fn exponent_of(bits: u64) -> (e: u64)
    ensures
        e as int == exponent_field(bits),
        e < 2048,
{
    (bits / HIDDEN_BIT) % 2048
}

/// The fraction bits of a pattern.
pub fn fraction_of(bits: u64) -> (f: u64)
    ensures
        f as int == fraction_field(bits),
        f < HIDDEN_BIT,
{
    bits % HIDDEN_BIT
}

/// Whether the pattern is that of no number.
pub fn nan(bits: u64) -> (r: bool)
    ensures
        r == is_nan(bits),
{
    exponent_of(bits) == 2047 && fraction_of(bits) != 0
}

/// Whether the number is zero, of either sign.
pub fn zero(bits: u64) -> (r: bool)
    ensures
        r == is_zero(bits),
{
    bits == 0 || bits == SIGN_BIT
}

/// Whether the number lies below zero.
pub fn negative(bits: u64) -> (r: bool)
    ensures
        r == is_negative(bits),
{
    has_sign(bits) && !zero(bits) && !nan(bits)
}

/// Two to the power `k`, for `k` up to 64.
pub fn power_of_two(k: u64) -> (p: u128)
    requires
        k <= 64,
    ensures
        p == two_to(k as nat),
        1 <= p <= 0x1_0000_0000_0000_0000,
{
    let mut p: u128 = 1;
    let mut i: u64 = 0;
    while i < k
        invariant
            i <= k <= 64,
            p == two_to(i as nat),
            1 <= p,
            p * two_to((64 - i) as nat) == two_to(64),
        decreases k - i,
    {
        proof {
            lemma_two_to_64();
            assert(two_to((64 - i) as nat) == 2 * two_to((64 - i - 1) as nat));
            assert(p * (2 * two_to((64 - i - 1) as nat)) == (2 * p) * two_to(
                (64 - i - 1) as nat,
            )) by (nonlinear_arith);
            assert(two_to((64 - i - 1) as nat) >= 1) by {
                lemma_two_to_positive((64 - i - 1) as nat);
            }
            assert(2 * p <= two_to(64)) by (nonlinear_arith)
                requires
                    (2 * p) * two_to((64 - i - 1) as nat) == two_to(64),
                    two_to((64 - i - 1) as nat) >= 1,
                    p >= 1,
            ;
        }
        p = p * 2;
        i += 1;
    }
    proof {
        lemma_two_to_64();
        lemma_two_to_positive((64 - k) as nat);
        assert(p <= two_to(64)) by (nonlinear_arith)
            requires
                p * two_to((64 - k) as nat) == two_to(64),
                two_to((64 - k) as nat) >= 1,
                p >= 1,
        ;
    }
    p
}

/// A power of two is one at least.
pub proof fn lemma_two_to_positive(k: nat)
    ensures
        two_to(k) >= 1,
    decreases k,
{
    if k > 0 {
        lemma_two_to_positive((k - 1) as nat);
    }
}

/// Two to the 64.
pub proof fn lemma_two_to_64()
    ensures
        two_to(64) == 0x1_0000_0000_0000_0000,
        two_to(0) == 1,
{
    lemma_two_to_values();
}

/// Whether the number is finite and has no fractional part.
pub fn whole(bits: u64) -> (r: bool)
    ensures
        r == is_whole(bits),
{
    let e = exponent_of(bits);
    let f = fraction_of(bits);
    if e == 2047 {
        false
    } else if e >= 1075 {
        true
    } else if e < 1023 {
        e == 0 && f == 0
    } else {
        let unit = power_of_two(1075 - e);
        ((HIDDEN_BIT + f) as u128) % unit == 0
    }
}

/// The number cut off towards zero and held to the range of `i32`.
pub fn truncate(bits: u64) -> (r: i32)
    ensures
        r as int == truncated(bits),
{
    let e = exponent_of(bits);
    let f = fraction_of(bits);
    if nan(bits) || e < 1023 {
        0
    } else if e >= 1054 {
        if has_sign(bits) {
            i32::MIN
        } else {
            i32::MAX
        }
    } else {
        let unit = power_of_two(1075 - e);
        proof {
            lemma_two_to_at_least_22((1075 - e) as nat);
        }
        let whole = ((HIDDEN_BIT + f) as u128) / unit;
        assert(whole < 0x8000_0000) by (nonlinear_arith)
            requires
                whole == ((HIDDEN_BIT + f) as u128) / unit,
                unit >= 0x40_0000,
                HIDDEN_BIT + f < 0x20_0000_0000_0000,
        ;
        if has_sign(bits) {
            -(whole as i32)
        } else {
            whole as i32
        }
    }
}

/// From the power 22 on, a power of two is two to the 22 at least.
pub proof fn lemma_two_to_at_least_22(k: nat)
    requires
        k >= 22,
    ensures
        two_to(k) >= 0x40_0000,
{
    lemma_two_to_values();
    lemma_two_to_monotone(22, k);
}

/// `a < b`.
pub fn less(a: u64, b: u64) -> (r: bool)
    ensures
        r == real_lt(a, b),
{
    if nan(a) || nan(b) {
        return false;
    }
    if has_sign(a) {
        if has_sign(b) {
            a > b
        } else {
            a > SIGN_BIT || b > 0
        }
    } else {
        if has_sign(b) {
            false
        } else {
            a < b
        }
    }
}

/// `a == b`.
pub fn equal(a: u64, b: u64) -> (r: bool)
    ensures
        r == real_eq(a, b),
{
    if nan(a) || nan(b) {
        return false;
    }
    a == b || (zero(a) && zero(b))
}

/// The pattern with the sign flipped.
pub fn flip(bits: u64) -> (r: u64)
    ensures
        r == flipped(bits),
{
    if bits >= SIGN_BIT {
        bits - SIGN_BIT
    } else {
        bits + SIGN_BIT
    }
}

/// A rendering with its sign flipped.
pub fn flip_text(s: &str) -> (r: String)
    ensures
        r@ == flipped_text(s@),
{
    let v = chars_of(s);
    let mut out: Vec<char> = Vec::new();
    if v.len() > 0 && v[0] == '-' {
        let mut i: usize = 1;
        while i < v.len()
            invariant
                1 <= i <= v.len(),
                out@ == v@.subrange(1, i as int),
            decreases v.len() - i,
        {
            out.push(v[i]);
            assert(v@.subrange(1, i as int).push(v@[i as int]) == v@.subrange(1, i + 1));
            i += 1;
        }
        assert(v@.subrange(1, v.len() as int) == v@.skip(1));
    } else {
        out.push('-');
        push_all(&mut out, &v);
    }
    string_of(&out)
}

impl Real {
    /// A real number from its bit pattern and its two renderings.
    pub fn new(bits: u64, text: String, fixed: String) -> (r: Real)
        ensures
            r@ == (RealView { bits: bits, text: text@, fixed: fixed@ }),
    {
        Real { bits, text, fixed }
    }

    /// The same number once more.
    pub fn copy(&self) -> (r: Real)
        ensures
            r@ == self@,
    {
        Real { bits: self.bits, text: self.text.clone(), fixed: self.fixed.clone() }
    }

    /// The negation of the number.
    pub fn negate(&self) -> (r: Real)
        ensures
            r@ == negated(self@),
    {
        if nan(self.bits) {
            Real { bits: flip(self.bits), text: self.text.clone(), fixed: self.fixed.clone() }
        } else {
            Real {
                bits: flip(self.bits),
                text: flip_text(self.text.as_str()),
                fixed: flip_text(self.fixed.as_str()),
            }
        }
    }

    /// The absolute value of the number.
    pub fn abs(&self) -> (r: Real)
        ensures
            r@ == absolute(self@),
    {
        if has_sign(self.bits) {
            self.negate()
        } else {
            self.copy()
        }
    }

    /// The real number that the integer `n` becomes.
    pub fn from_i32(n: i32) -> (r: Real)
        ensures
            r@ == real_of_int(n as int),
    {
        let text = decimal_of_i64(n as i64);
        let mut fixed: Vec<char> = Vec::new();
        push_all(&mut fixed, &text);
        push_str(&mut fixed, ".0");
        Real { bits: bits_of_i64(n as i64), text: string_of(&text), fixed: string_of(&fixed) }
    }
}

/// The bit pattern of a whole number in binary64.
pub fn bits_of_i64(n: i64) -> (r: u64)
    ensures
        r == int_bits(n as int),
{
    let m = crate::text::magnitude(n);
    let (bits, _) = round_whole(m);
    if n < 0 {
        bits + SIGN_BIT
    } else {
        bits
    }
}

/// The bit pattern of the whole number `m` in binary64, and the whole number
/// that the pattern stands for.
pub fn round_whole(m: u64) -> (r: (u64, u64))
    requires
        m <= SIGN_BIT,
    ensures
        r.0 == whole_bits(m as nat),
        r.1 == nearest_whole(m as nat),
        r.0 < SIGN_BIT,
{
    if m == 0 {
        assert(halvings(0) == 0 && halved(0) == 0);
        assert(two_to(0) == 1);
        assert(!rounds_up(0));
        assert(kept(0) == 0);
        assert(0 * two_to(0) == 0) by (nonlinear_arith);
        return (0, 0);
    }
    let mut q: u64 = m;
    let mut k: u64 = 0;
    let mut unit: u64 = 1;
    while q >= FULL_SIGNIFICAND
        invariant
            halved(q as nat) == halved(m as nat),
            halvings(m as nat) == k + halvings(q as nat),
            unit == two_to(k as nat),
            q * unit <= m <= SIGN_BIT,
            m - q * unit < unit,
            q >= 1,
            k > 0 ==> q >= HIDDEN_BIT,
            k <= 11,
            1 <= unit <= 0x800,
        decreases q,
    {
        proof {
            assert(unit <= 0x400) by (nonlinear_arith)
                requires
                    q * unit <= SIGN_BIT,
                    q >= FULL_SIGNIFICAND,
                    unit >= 1,
            ;
            if k >= 11 {
                lemma_two_to_monotone(11, k as nat);
                lemma_two_to_values();
            }
            assert((q / 2) * (unit * 2) <= q * unit && q * unit - (q / 2) * (unit * 2) <= unit)
                by (nonlinear_arith)
                requires
                    q >= 0,
                    unit >= 1,
            ;
        }
        q = q / 2;
        k = k + 1;
        unit = unit * 2;
    }
    assert(halved(q as nat) == q);
    assert(halvings(q as nat) == 0);
    let rest: u64 = m - q * unit;
    let up = k > 0 && (2 * rest > unit || (2 * rest == unit && q % 2 == 1));
    let q1: u64 = if up {
        q + 1
    } else {
        q
    };
    assert(q1 == kept(m as nat));
    proof {
        lemma_two_to_values();
        if k <= 10 {
            lemma_two_to_monotone(k as nat, 10);
            assert(q1 * unit <= 0x8000_0000_0000_0000) by (nonlinear_arith)
                requires
                    q1 <= 0x20_0000_0000_0000,
                    unit <= 0x400,
            ;
        } else {
            assert(unit == 0x800);
            assert(q == HIDDEN_BIT) by (nonlinear_arith)
                requires
                    q * 0x800 <= 0x8000_0000_0000_0000,
                    q >= 0x10_0000_0000_0000,
            ;
        }
    }
    let value: u64 = q1 * unit;
    if q1 == FULL_SIGNIFICAND {
        let bits = (1076 + k) * HIDDEN_BIT;
        return (bits, value);
    }
    let mut s: u64 = q1;
    let mut e: u64 = 1075 + k;
    let ghost mut d: nat = 0;
    proof {
        lemma_two_to_values();
    }
    while s < HIDDEN_BIT
        invariant
            1 <= s < FULL_SIGNIFICAND,
            e == 1075 + k - d,
            k <= 11,
            d <= 52,
            s >= two_to(d),
            raised(s as nat, e as int) == raised(q1 as nat, 1075 + k as int),
        decreases FULL_SIGNIFICAND - s,
    {
        proof {
            if d >= 52 {
                lemma_two_to_monotone(52, d);
                lemma_two_to_values();
            }
            d = d + 1;
        }
        s = s * 2;
        e = e - 1;
    }
    assert(raised(s as nat, e as int) == (s as nat, e as int));
    let bits = e * HIDDEN_BIT + (s - HIDDEN_BIT);
    (bits, value)
}

/// A greater power of two is no smaller a number.
pub proof fn lemma_two_to_monotone(a: nat, b: nat)
    requires
        a <= b,
    ensures
        two_to(a) <= two_to(b),
    decreases b,
{
    if a < b {
        lemma_two_to_monotone(a, (b - 1) as nat);
    }
}

/// Some powers of two.
pub proof fn lemma_two_to_values()
    ensures
        two_to(0) == 1,
        two_to(10) == 0x400,
        two_to(11) == 0x800,
        two_to(22) == 0x40_0000,
        two_to(52) == 0x10_0000_0000_0000,
        two_to(64) == 0x1_0000_0000_0000_0000,
{
    reveal_with_fuel(two_to, 12);
    assert(two_to(11) == 0x800);
    assert(two_to(22) == 0x800 * two_to(11)) by {
        lemma_two_to_adds(11, 11);
    }
    assert(two_to(52) == two_to(22) * two_to(22) * 0x100) by {
        lemma_two_to_adds(22, 22);
        lemma_two_to_adds(44, 8);
        assert(two_to(8) == 0x100);
    }
    assert(two_to(64) == two_to(52) * 0x1000) by {
        lemma_two_to_adds(52, 12);
        assert(two_to(12) == 0x1000) by {
            lemma_two_to_adds(11, 1);
        }
    }
}

/// Powers of two multiply by adding their exponents.
pub proof fn lemma_two_to_adds(a: nat, b: nat)
    ensures
        two_to(a + b) == two_to(a) * two_to(b),
    decreases b,
{
    if b == 0 {
        assert(two_to(a) * 1 == two_to(a)) by (nonlinear_arith);
    } else {
        lemma_two_to_adds(a, (b - 1) as nat);
        assert(two_to(a) * (2 * two_to((b - 1) as nat)) == 2 * (two_to(a) * two_to(
            (b - 1) as nat,
        ))) by (nonlinear_arith);
    }
}

} // verus!
