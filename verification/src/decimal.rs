//! Decimal numerals: writing numbers as text and reading them back.
use crate::text::{code_point, to_text};
use vstd::prelude::*;
use vstd::slice::slice_subrange;

verus! {

/// The numeral of a number below ten.
pub open spec fn digit_char(d: int) -> char {
    (48 + d) as char
}

/// The ten characters that stand for a digit.
pub open spec fn is_digit(c: char) -> bool {
    48 <= c as int <= 57
}

/// The number that a digit stands for.
pub open spec fn digit_value(c: char) -> nat {
    (c as int - 48) as nat
}

/// `n` in decimal, without leading zeros.
pub open spec fn decimal(n: nat) -> Seq<char>
    decreases n,
{
    if n < 10 {
        seq![digit_char(n as int)]
    } else {
        decimal(n / 10).push(digit_char((n % 10) as int))
    }
}

/// The number that a row of digits stands for.
pub open spec fn digits_value(s: Seq<char>) -> nat
    decreases s.len(),
{
    if s.len() == 0 {
        0
    } else {
        digits_value(s.drop_last()) * 10 + digit_value(s.last())
    }
}

/// Every character is a digit.
pub open spec fn all_digits(s: Seq<char>) -> bool {
    forall|i: int| 0 <= i < s.len() ==> is_digit(#[trigger] s[i])
}

/// A decimal is a row of digits, starts with a zero only if it is the number zero, and stands for
/// the number that it was made from.
pub proof fn lemma_decimal(n: nat)
    ensures
        decimal(n).len() > 0,
        all_digits(decimal(n)),
        decimal(n)[0] == '0' ==> n == 0,
        digits_value(decimal(n)) == n,
    decreases n,
{
    if n < 10 {
        assert(decimal(n).drop_last() =~= seq![]);
        assert(digits_value(decimal(n).drop_last()) == 0);
    } else {
        lemma_decimal(n / 10);
        assert(decimal(n).drop_last() =~= decimal(n / 10));
    }
}

/// Two numbers with the same decimal are the same number.
pub proof fn lemma_decimal_injective(a: nat, b: nat)
    requires
        decimal(a) == decimal(b),
    ensures
        a == b,
{
    lemma_decimal(a);
    lemma_decimal(b);
}

/// Writes `n` in decimal.
pub fn decimal_chars(n: u128) -> (r: Vec<char>)
    ensures
        r@ == decimal(n as nat),
    decreases n,
{
    let d: u8 = (n % 10) as u8;
    let c: char = (48 + d) as char;
    if n < 10 {
        let out: Vec<char> = vec![c];
        assert(out@ =~= decimal(n as nat));
        out
    } else {
        let mut out: Vec<char> = decimal_chars(n / 10);
        out.push(c);
        out
    }
}

/// Writes `n` in decimal.
pub fn decimal_text(n: u128) -> (r: String)
    ensures
        r@ == decimal(n as nat),
{
    to_text(decimal_chars(n).as_slice())
}

/// `n` in decimal, with zeros in front up to `width` characters.
pub open spec fn zero_padded(n: nat, width: nat) -> Seq<char> {
    let d: Seq<char> = decimal(n);
    if d.len() < width {
        Seq::new((width - d.len()) as nat, |i: int| '0') + d
    } else {
        d
    }
}

/// Writes `n` in decimal with zeros in front up to `width` characters.
pub fn zero_padded_text(n: u128, width: usize) -> (r: String)
    ensures
        r@ == zero_padded(n as nat, width as nat),
{
    let d: Vec<char> = decimal_chars(n);
    let mut out: String = String::new();
    let mut i: usize = d.len();
    assert(out@ =~= Seq::new(0, |j: int| '0'));
    let ghost mut zeros: nat = 0;
    while i < width
        invariant
            i == d@.len() + zeros,
            d@.len() < width ==> i <= width,
            d@.len() >= width ==> zeros == 0,
            out@ == Seq::new(zeros, |j: int| '0'),
        decreases width - i,
    {
        out.push('0');
        i = i + 1;
        proof {
            zeros = zeros + 1;
        }
        assert(out@ =~= Seq::new(zeros, |j: int| '0'));
    }
    let digits: String = to_text(d.as_slice());
    out.append(digits.as_str());
    assert(out@ =~= zero_padded(n as nat, width as nat));
    out
}

/// `s` with blanks behind it up to `width` characters.
pub open spec fn blank_padded(s: Seq<char>, width: nat) -> Seq<char> {
    if s.len() < width {
        s + Seq::new((width - s.len()) as nat, |i: int| ' ')
    } else {
        s
    }
}

/// Copies `s` and puts blanks behind it up to `width` characters.
pub fn blank_padded_text(s: &str, width: usize) -> (r: String)
    ensures
        r@ == blank_padded(s@, width as nat),
{
    let mut out: String = String::new();
    out.append(s);
    assert(out@ =~= s@);
    let mut i: usize = s.unicode_len();
    let ghost mut blanks: nat = 0;
    assert(out@ =~= s@ + Seq::new(0, |j: int| ' '));
    while i < width
        invariant
            i == s@.len() + blanks,
            s@.len() < width ==> i <= width,
            s@.len() >= width ==> blanks == 0,
            out@ == s@ + Seq::new(blanks, |j: int| ' '),
        decreases width - i,
    {
        out.push(' ');
        i = i + 1;
        proof {
            blanks = blanks + 1;
        }
        assert(out@ =~= s@ + Seq::new(blanks, |j: int| ' '));
    }
    assert(out@ =~= blank_padded(s@, width as nat));
    out
}

/// A row of digits in front stands for no more than the whole row does.
proof fn lemma_digits_value_prefix(s: Seq<char>, n: int)
    requires
        0 <= n <= s.len(),
    ensures
        digits_value(s.take(n)) <= digits_value(s),
    decreases s.len(),
{
    if n < s.len() {
        lemma_digits_value_prefix(s.drop_last(), n);
        assert(s.drop_last().take(n) =~= s.take(n));
    } else {
        assert(s.take(n) =~= s);
    }
}

/// The number below 256 that a text stands for: one digit or more, leading zeros allowed, with or
/// without a plus sign in front.
pub open spec fn parse_u8(s: Seq<char>) -> Option<u8> {
    let body: Seq<char> = if s.len() > 0 && s[0] == '+' {
        s.skip(1)
    } else {
        s
    };
    if body.len() > 0 && all_digits(body) && digits_value(body) < 256 {
        Some(digits_value(body) as u8)
    } else {
        None
    }
}

/// Reads a number below 256.
pub fn parse_u8_chars(s: &[char]) -> (r: Option<u8>)
    ensures
        r == parse_u8(s@),
{
    let n: usize = s.len();
    let body: &[char] = if n > 0 && s[0] == '+' {
        slice_subrange(s, 1, n)
    } else {
        s
    };
    assert(n > 0 && s@[0] == '+' ==> body@ =~= s@.skip(1));
    if body.len() == 0 {
        return None;
    }
    let mut v: u32 = 0;
    let mut i: usize = 0;
    assert(body@.take(0) =~= seq![]);
    while i < body.len()
        invariant
            i <= body@.len(),
            v < 256,
            v == digits_value(body@.take(i as int)),
            forall|k: int| 0 <= k < i ==> is_digit(#[trigger] body@[k]),
            body@ == (if s@.len() > 0 && s@[0] == '+' { s@.skip(1) } else { s@ }),
        decreases body@.len() - i,
    {
        let u: u32 = code_point(body[i]);
        if u < 48 || 57 < u {
            assert(!is_digit(body@[i as int]));
            return None;
        }
        v = v * 10 + (u - 48);
        assert(body@.take(i + 1).drop_last() =~= body@.take(i as int));
        if v > 255 {
            proof {
                lemma_digits_value_prefix(body@, i + 1);
            }
            return None;
        }
        i = i + 1;
    }
    assert(body@.take(body@.len() as int) =~= body@);
    Some(v as u8)
}

/// Every number below 256, written in decimal, is read back.
pub proof fn law_u8_round_trip(n: u8)
    ensures
        parse_u8(decimal(n as nat)) == Some(n),
{
    lemma_decimal(n as nat);
}

/// A number below ten is one character, its digit; appending a digit to the numeral of any other
/// number gives ten times the number and the digit.
pub proof fn law_decimal_by_digits(n: nat, d: nat)
    requires
        d < 10,
    ensures
        decimal(d).len() == 1,
        decimal(d)[0] as int == '0' as int + d,
        n > 0 ==> decimal(10 * n + d) == decimal(n) + decimal(d),
{
    if n > 0 {
        assert((10 * n + d) / 10 == n && (10 * n + d) % 10 == d);
        assert(decimal(10 * n + d) =~= decimal(n) + decimal(d));
    }
}

/// A number in a column stands at its end, with zeros alone before it, and fills the column exactly
/// unless it is wider.
pub proof fn law_zero_padded_fills_column(n: nat, width: nat)
    ensures
        ({
            let z: Seq<char> = zero_padded(n, width);
            let d: Seq<char> = decimal(n);
            &&& z.len() == (if d.len() < width {
                width
            } else {
                d.len()
            })
            &&& z.skip(z.len() - d.len()) == d
            &&& forall|i: int| 0 <= i < z.len() - d.len() ==> #[trigger] z[i] == '0'
        }),
{
    let z: Seq<char> = zero_padded(n, width);
    let d: Seq<char> = decimal(n);
    assert(z.skip(z.len() - d.len()) =~= d);
}

/// A text in a column stands at its start, with blanks alone behind it, and fills the column exactly
/// unless it is wider.
pub proof fn law_blank_padded_fills_column(s: Seq<char>, width: nat)
    ensures
        ({
            let z: Seq<char> = blank_padded(s, width);
            &&& z.len() == (if s.len() < width {
                width
            } else {
                s.len()
            })
            &&& z.take(s.len() as int) == s
            &&& forall|i: int| s.len() <= i < z.len() ==> #[trigger] z[i] == ' '
        }),
{
    let z: Seq<char> = blank_padded(s, width);
    assert(z.take(s.len() as int) =~= s);
}

/// A row of zeros.
pub open spec fn zeros(k: nat) -> Seq<char> {
    Seq::new(k, |i: int| '0')
}

proof fn lemma_digits_are_numeral(t: Seq<char>) -> (k: nat)
    requires
        t.len() > 0,
        all_digits(t),
    ensures
        t == zeros(k) + decimal(digits_value(t)),
    decreases t.len(),
{
    let init: Seq<char> = t.drop_last();
    let c: char = t.last();
    assert(is_digit(t[t.len() - 1]));
    let d: nat = digit_value(c);
    assert(digit_char(d as int) == c);
    if init.len() == 0 {
        assert(digits_value(init) == 0);
        assert(t =~= zeros(0) + decimal(d));
        0
    } else {
        assert forall|i: int| 0 <= i < init.len() implies is_digit(#[trigger] init[i]) by {
            assert(is_digit(t[i]));
        }
        let k: nat = lemma_digits_are_numeral(init);
        let v: nat = digits_value(init);
        if v == 0 {
            assert(decimal(0) =~= zeros(1));
            assert(init =~= zeros(k + 1));
            assert(decimal(d) =~= seq![c]);
            assert(t =~= init + seq![c]);
            assert(t =~= zeros(k + 1) + decimal(d));
            k + 1
        } else {
            law_decimal_by_digits(v, d);
            assert(decimal(d) =~= seq![c]);
            assert(t =~= init + seq![c]);
            assert(init == zeros(k) + decimal(v));
            assert(t =~= zeros(k) + decimal(10 * v + d));
            k
        }
    }
}

proof fn lemma_numeral_value(k: nat, n: nat)
    ensures
        all_digits(zeros(k) + decimal(n)),
        digits_value(zeros(k) + decimal(n)) == n,
    decreases k + n,
{
    lemma_decimal(n);
    let t: Seq<char> = zeros(k) + decimal(n);
    assert forall|i: int| 0 <= i < t.len() implies is_digit(#[trigger] t[i]) by {
        if i >= k {
            assert(is_digit(decimal(n)[i - k]));
        }
    }
    if n < 10 {
        assert(t.drop_last() =~= zeros(k));
        lemma_zeros_value(k);
    } else {
        assert(t.drop_last() =~= zeros(k) + decimal(n / 10));
        lemma_numeral_value(k, n / 10);
    }
}

proof fn lemma_zeros_value(k: nat)
    ensures
        digits_value(zeros(k)) == 0,
    decreases k,
{
    if k > 0 {
        assert(zeros(k).drop_last() =~= zeros((k - 1) as nat));
        lemma_zeros_value((k - 1) as nat);
    }
}

/// A text is read as the number `n` if and only if it is the numeral of `n`, with zeros in front or
/// without, and with a plus sign before all of it or without.
pub proof fn law_u8_read_iff_numeral(s: Seq<char>, n: u8)
    ensures
        parse_u8(s) == Some(n) <==> exists|k: nat|
            s == #[trigger] zeros(k) + decimal(n as nat) || s == seq!['+'] + (zeros(k) + decimal(
                n as nat,
            )),
{
    let body: Seq<char> = if s.len() > 0 && s[0] == '+' {
        s.skip(1)
    } else {
        s
    };
    if parse_u8(s) == Some(n) {
        let k: nat = lemma_digits_are_numeral(body);
        assert(body == zeros(k) + decimal(n as nat));
        if s.len() > 0 && s[0] == '+' {
            assert(s =~= seq!['+'] + body);
        }
    }
    if exists|k: nat|
        s == #[trigger] zeros(k) + decimal(n as nat) || s == seq!['+'] + (zeros(k) + decimal(
            n as nat,
        )) {
        let k: nat = choose|k: nat|
            s == #[trigger] zeros(k) + decimal(n as nat) || s == seq!['+'] + (zeros(k) + decimal(
                n as nat,
            ));
        lemma_numeral_value(k, n as nat);
        lemma_decimal(n as nat);
        let t: Seq<char> = zeros(k) + decimal(n as nat);
        assert(is_digit(t[0]));
        if s == seq!['+'] + t {
            assert(s.skip(1) =~= t);
        }
    }
}

} // verus!
