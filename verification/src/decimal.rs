//! Unsigned integers as decimal text: reading a number from a line and
//! writing factor lists as lines.

use crate::factorizer::values;
use crate::text::chars_of;
use vstd::prelude::*;

verus! {

/// Whether `c` is one of the ten ASCII digits.
pub open spec fn is_digit(c: char) -> bool {
    '0' <= c <= '9'
}

/// The value of the digit `c`.
pub open spec fn digit_value(c: char) -> nat
    recommends
        is_digit(c),
{
    (c as u32 - '0' as u32) as nat
}

/// Every character of `s` is a digit.
pub open spec fn all_digits(s: Seq<char>) -> bool {
    forall|i: int| 0 <= i < s.len() ==> is_digit(#[trigger] s[i])
}

/// The number that the digits `s` spell, most significant digit first; the
/// empty sequence spells 0.
pub open spec fn digits_value(s: Seq<char>) -> nat
    decreases s.len(),
{
    if s.len() == 0 {
        0
    } else {
        digits_value(s.drop_last()) * 10 + digit_value(s.last())
    }
}

/// `s` without the one plus sign that may lead a number.
pub open spec fn without_sign(s: Seq<char>) -> Seq<char> {
    if s.len() > 0 && s[0] == '+' {
        s.drop_first()
    } else {
        s
    }
}

/// The number that `s` spells, if it spells one: an optional plus sign, then
/// one or more digits whose value fits in 128 bits. Anything else, white
/// space included, spells no number.
pub open spec fn number_of(s: Seq<char>) -> Option<u128> {
    let digits = without_sign(s);
    if digits.len() > 0 && all_digits(digits) && digits_value(digits) <= u128::MAX {
        Some(digits_value(digits) as u128)
    } else {
        None
    }
}

/// The character for the digit `d`.
pub open spec fn digit_char(d: nat) -> char
    recommends
        d < 10,
{
    if d == 0 {
        '0'
    } else if d == 1 {
        '1'
    } else if d == 2 {
        '2'
    } else if d == 3 {
        '3'
    } else if d == 4 {
        '4'
    } else if d == 5 {
        '5'
    } else if d == 6 {
        '6'
    } else if d == 7 {
        '7'
    } else if d == 8 {
        '8'
    } else {
        '9'
    }
}

/// `n` in decimal notation, without sign or leading zeros; 0 is `0`.
pub open spec fn decimal(n: nat) -> Seq<char>
    decreases n,
{
    if n < 10 {
        seq![digit_char(n)]
    } else {
        decimal(n / 10).push(digit_char(n % 10))
    }
}

/// The tokens written one after the other with a single space between
/// neighbours; no tokens give the empty line.
pub open spec fn spaced(tokens: Seq<Seq<char>>) -> Seq<char>
    decreases tokens.len(),
{
    if tokens.len() == 0 {
        Seq::empty()
    } else if tokens.len() == 1 {
        tokens[0]
    } else {
        spaced(tokens.drop_last()) + seq![' '] + tokens.last()
    }
}

/// Each number in decimal notation.
pub open spec fn decimals(numbers: Seq<nat>) -> Seq<Seq<char>> {
    numbers.map_values(|n: nat| decimal(n))
}

/// The output line for a factor list: the factors in decimal, in their
/// order, separated by single spaces.
pub open spec fn factor_line(factors: Seq<nat>) -> Seq<char> {
    spaced(decimals(factors))
}

/// The token that opens a result line in an interactive session.
pub open spec fn result_marker() -> Seq<char> {
    seq!['=', '>']
}

/// The output line for a factor list in an interactive session: the result
/// marker, then the factors, all separated by single spaces.
pub open spec fn marked_factor_line(factors: Seq<nat>) -> Seq<char> {
    spaced(seq![result_marker()] + decimals(factors))
}

/// A longer run of digits never spells less than its beginning.
pub proof fn lemma_digits_value_grows(s: Seq<char>, k: int)
    requires
        0 <= k <= s.len(),
    ensures
        digits_value(s.take(k)) <= digits_value(s),
    decreases s.len() - k,
{
    if k == s.len() {
        assert(s.take(k) =~= s);
    } else {
        assert(s.drop_last().take(k) =~= s.take(k));
        lemma_digits_value_grows(s.drop_last(), k);
    }
}

/// Reads the characters `chars` as an unsigned integer.
///
/// A number is an optional `+` followed by one or more ASCII digits, and
/// must fit in 128 bits. Everything else is rejected, not coerced: the empty
/// line, a sign alone, a minus sign, white space anywhere, any other
/// character.
pub fn parse_digits(chars: &[char]) -> (number: Option<u128>)
    ensures
        number == number_of(chars@),
{
    let len = chars.len();
    let first: usize = if len > 0 && chars[0] == '+' {
        1
    } else {
        0
    };
    let ghost digits = without_sign(chars@);
    proof {
        assert(digits =~= chars@.subrange(first as int, len as int));
    }
    if first == len {
        return None;
    }
    let mut value: u128 = 0;
    let mut at: usize = first;
    proof {
        assert(digits.take(0) =~= Seq::<char>::empty());
    }
    while at < len
        invariant
            first <= at <= len,
            len == chars.len(),
            digits == without_sign(chars@),
            digits == chars@.subrange(first as int, len as int),
            all_digits(digits.take(at - first)),
            value == digits_value(digits.take(at - first)),
        decreases len - at,
    {
        let c = chars[at];
        let ghost seen = digits.take(at - first + 1);
        proof {
            assert(seen.drop_last() =~= digits.take(at - first));
            assert(seen.last() == c);
            assert(digits[at - first] == c);
        }
        if !('0' <= c && c <= '9') {
            return None;
        }
        let digit: u128 = (c as u32 - '0' as u32) as u128;
        if value > (u128::MAX - digit) / 10 {
            proof {
                assert(digits_value(seen) > u128::MAX);
                lemma_digits_value_grows(digits, at - first + 1);
            }
            return None;
        }
        value = value * 10 + digit;
        at = at + 1;
        proof {
            assert forall|i: int| 0 <= i < seen.len() implies is_digit(#[trigger] seen[i]) by {
                if i < seen.len() - 1 {
                    assert(seen[i] == digits.take(at - 1 - first)[i]);
                }
            }
        }
    }
    proof {
        assert(digits.take(len - first) =~= digits);
    }
    Some(value)
}

/// Reads the line `text` as an unsigned integer: an optional `+`, then one
/// or more ASCII digits, within 128 bits. Nothing is trimmed or skipped.
pub fn parse_number(text: &str) -> (number: Option<u128>)
    ensures
        number == number_of(text@),
{
    let chars = chars_of(text);
    parse_digits(chars.as_slice())
}

/// Decimal notation is made of digits only, never empty, and spells the
/// number it was written for.
pub proof fn lemma_decimal_spells(n: nat)
    ensures
        decimal(n).len() > 0,
        all_digits(decimal(n)),
        digits_value(decimal(n)) == n,
    decreases n,
{
    let text = decimal(n);
    if n < 10 {
        assert(text.drop_last() =~= Seq::<char>::empty());
        assert(digits_value(text.drop_last()) == 0);
        assert(text.last() == digit_char(n));
    } else {
        lemma_decimal_spells(n / 10);
        assert(text.drop_last() =~= decimal(n / 10));
        assert(text.last() == digit_char(n % 10));
        assert forall|i: int| 0 <= i < text.len() implies is_digit(#[trigger] text[i]) by {
            if i < text.len() - 1 {
                assert(text[i] == decimal(n / 10)[i]);
            }
        }
    }
}

/// Reading what was written gives the number back: the decimal notation of
/// any 128-bit number parses to that number.
pub proof fn lemma_written_number_reads_back(n: u128)
    ensures
        number_of(decimal(n as nat)) == Some(n),
{
    lemma_decimal_spells(n as nat);
    let text = decimal(n as nat);
    assert(is_digit(text[0]));
    assert(without_sign(text) == text);
}

/// The one-character text of the digit `d`.
fn digit_text(d: u128) -> (text: &'static str)
    requires
        d < 10,
    ensures
        text@ == seq![digit_char(d as nat)],
{
    proof {
        reveal_strlit("0");
        reveal_strlit("1");
        reveal_strlit("2");
        reveal_strlit("3");
        reveal_strlit("4");
        reveal_strlit("5");
        reveal_strlit("6");
        reveal_strlit("7");
        reveal_strlit("8");
        reveal_strlit("9");
    }
    let text = if d == 0 {
        "0"
    } else if d == 1 {
        "1"
    } else if d == 2 {
        "2"
    } else if d == 3 {
        "3"
    } else if d == 4 {
        "4"
    } else if d == 5 {
        "5"
    } else if d == 6 {
        "6"
    } else if d == 7 {
        "7"
    } else if d == 8 {
        "8"
    } else {
        "9"
    };
    proof {
        assert(text@ =~= seq![digit_char(d as nat)]);
    }
    text
}

/// Writes `n` in decimal at the end of `line`.
fn append_decimal(line: &mut String, n: u128)
    ensures
        final(line)@ == old(line)@ + decimal(n as nat),
    decreases n,
{
    if n >= 10 {
        append_decimal(line, n / 10);
    }
    line.append(digit_text(n % 10));
    proof {
        assert(line@ =~= old(line)@ + decimal(n as nat));
    }
}

/// Writes `n` in decimal notation.
pub fn format_number(n: u128) -> (text: String)
    ensures
        text@ == decimal(n as nat),
{
    let mut text = String::new();
    append_decimal(&mut text, n);
    proof {
        assert(Seq::<char>::empty() + decimal(n as nat) =~= decimal(n as nat));
    }
    text
}

/// Writes the factors at the end of `line`, which holds the tokens `before`
/// already; `led` says whether there are any. A single space goes before
/// each factor but the first token of the line.
fn append_tokens(
    line: &mut String,
    factors: &Vec<u128>,
    led: bool,
    Ghost(before): Ghost<Seq<Seq<char>>>,
)
    requires
        old(line)@ == spaced(before),
        led == (before.len() > 0),
    ensures
        final(line)@ == spaced(before + decimals(values(factors@))),
{
    let ghost tokens = decimals(values(factors@));
    proof {
        assert(before + tokens.take(0) =~= before);
    }
    for i in 0..factors.len()
        invariant
            tokens == decimals(values(factors@)),
            led == (before.len() > 0),
            line@ == spaced(before + tokens.take(i as int)),
    {
        let ghost sofar = before + tokens.take(i as int);
        let ghost next = before + tokens.take(i + 1);
        proof {
            assert(next.drop_last() =~= sofar);
            assert(next.last() == decimal(factors[i as int] as nat));
        }
        if led || i > 0 {
            line.append(" ");
        }
        append_decimal(line, factors[i]);
        proof {
            reveal_strlit(" ");
            assert(" "@ =~= seq![' ']);
            assert(line@ =~= spaced(next));
        }
    }
    proof {
        assert(tokens.take(factors.len() as int) =~= tokens);
    }
}

/// Writes a factor list as an output line: the factors in decimal, in their
/// order, separated by single spaces. The empty list gives the empty line.
pub fn format_factors(factors: &Vec<u128>) -> (line: String)
    ensures
        line@ == factor_line(values(factors@)),
{
    let mut line = String::new();
    append_tokens(&mut line, factors, false, Ghost(Seq::empty()));
    proof {
        assert(Seq::<Seq<char>>::empty() + decimals(values(factors@)) =~= decimals(
            values(factors@),
        ));
    }
    line
}

/// Writes a factor list as an interactive result line: the result marker,
/// then the factors in decimal, all separated by single spaces.
pub fn format_marked_factors(factors: &Vec<u128>) -> (line: String)
    ensures
        line@ == marked_factor_line(values(factors@)),
{
    let mut line = String::from_str("=>");
    proof {
        reveal_strlit("=>");
        assert(line@ =~= result_marker());
    }
    let ghost marker = seq![result_marker()];
    append_tokens(&mut line, factors, true, Ghost(marker));
    line
}

} // verus!
