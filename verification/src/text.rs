//! Conversions between Rust strings and the character sequences that the
//! scanner and the recognisers work on.

use vstd::prelude::*;

verus! {

/// `String::push` appends one character to the end of the string and leaves
/// the characters before it as they were.
pub assume_specification[ String::push ](s: &mut String, ch: char)
    ensures
        final(s)@ == old(s)@.push(ch),
;

/// The characters of `input`, in order.
pub fn chars_of(input: &str) -> (chars: Vec<char>)
    ensures
        chars@ == input@,
{
    let mut chars: Vec<char> = Vec::new();
    for c in rest: input.chars()
        invariant
            rest.seq() == input@,
            chars@ == input@.take(rest.index()),
    {
        chars.push(c);
        assert(input@.take(rest.index() + 1) =~= input@.take(rest.index()).push(c));
    }
    assert(input@.take(input@.len() as int) =~= input@);
    chars
}

/// A string that holds the single character `c`.
pub fn string_of_char(c: char) -> (text: String)
    ensures
        text@ == seq![c],
{
    let mut text = String::new();
    text.push(c);
    text
}

/// The character that writes the digit `d`.
pub open spec fn digit_char(d: nat) -> char
    recommends
        d < 10,
{
    (d + 48) as char
}

/// The decimal numeral of `n`, most significant digit first, without leading
/// zeros (`0` itself is written `"0"`).
pub open spec fn decimal_digits(n: nat) -> Seq<char>
    decreases n,
{
    if n < 10 {
        seq![digit_char(n)]
    } else {
        decimal_digits(n / 10).push(digit_char(n % 10))
    }
}

/// Appends the decimal numeral of `n` to `text`.
pub fn push_decimal(text: &mut String, n: usize)
    ensures
        final(text)@ == old(text)@ + decimal_digits(n as nat),
    decreases n,
{
    if n >= 10 {
        push_decimal(text, n / 10);
    }
    let digit: u8 = (n % 10) as u8;
    text.push((digit + 48) as char);
    assert(text@ =~= old(text)@ + decimal_digits(n as nat));
}

} // verus!
