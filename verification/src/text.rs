//! Strings as sequences of characters, and the text forms of numbers.

use vstd::prelude::*;
use vstd::string::StringExecFns;

verus! {

/// What std says of `String::push`: it appends the character to the end of
/// the string. This is taken on trust.
pub assume_specification[ String::push ](text: &mut String, c: char)
    ensures
        final(text)@ == old(text)@.push(c),
;

/// The lowercase form that `str::to_lowercase` gives to a string. Nothing is
/// known of it here but that it depends on the characters of the string
/// alone.
pub uninterp spec fn lowercase(text: Seq<char>) -> Seq<char>;

/// What is taken on trust of `str::to_lowercase`: its result is the
/// lowercase form of its argument.
pub assume_specification[ str::to_lowercase ](text: &str) -> (lower: String)
    ensures
        lower@ == lowercase(text@),
;

/// The characters of `text`, one by one.
pub fn chars_of(text: &str) -> (chars: Vec<char>)
    ensures
        chars@ == text@,
{
    let mut chars: Vec<char> = Vec::new();
    for c in it: text.chars()
        invariant
            chars@ == it.seq().take(it.index() as int),
            it.seq() == text@,
    {
        chars.push(c);
    }
    chars
}

/// The form that std's `Debug` gives to a string: the string between double
/// quotes, with the characters escaped that cannot stand there as they are.
/// Nothing is known of it here but that it depends on the characters of the
/// string alone.
pub uninterp spec fn quoted(text: Seq<char>) -> Seq<char>;

/// Formats `text` with `{:?}`, that is with `<str as Debug>::fmt`. That the
/// result is the `Debug` form of `text` is taken on trust.
#[verifier::external_body]
pub(crate) fn quote(text: &str) -> (result: String)
    ensures
        result@ == quoted(text@),
{
    format!("{:?}", text)
}

/// The character that stands for a digit.
pub open spec fn digit_char(digit: int) -> char {
    if digit == 0 {
        '0'
    } else if digit == 1 {
        '1'
    } else if digit == 2 {
        '2'
    } else if digit == 3 {
        '3'
    } else if digit == 4 {
        '4'
    } else if digit == 5 {
        '5'
    } else if digit == 6 {
        '6'
    } else if digit == 7 {
        '7'
    } else if digit == 8 {
        '8'
    } else {
        '9'
    }
}

/// The decimal digits of a number that is not negative, without leading
/// zeros.
pub open spec fn digits_of(n: int) -> Seq<char>
    decreases n,
{
    if n < 10 {
        seq![digit_char(n)]
    } else {
        digits_of(n / 10).push(digit_char(n % 10))
    }
}

/// A number in decimal digits, with a minus sign before a negative one.
pub open spec fn decimal_text(n: int) -> Seq<char> {
    if n < 0 {
        seq!['-'] + digits_of(-n)
    } else {
        digits_of(n)
    }
}

/// The character that stands for `digit`.
fn digit_to_char(digit: u8) -> (c: char)
    requires
        digit < 10,
    ensures
        c == digit_char(digit as int),
{
    if digit == 0 {
        '0'
    } else if digit == 1 {
        '1'
    } else if digit == 2 {
        '2'
    } else if digit == 3 {
        '3'
    } else if digit == 4 {
        '4'
    } else if digit == 5 {
        '5'
    } else if digit == 6 {
        '6'
    } else if digit == 7 {
        '7'
    } else if digit == 8 {
        '8'
    } else {
        '9'
    }
}

/// Appends the decimal digits of `n` to `text`.
fn push_digits(text: &mut String, n: u64)
    ensures
        final(text)@ == old(text)@ + digits_of(n as int),
    decreases n,
{
    if n >= 10 {
        push_digits(text, n / 10);
    }
    text.push(digit_to_char((n % 10) as u8));
    assert(text@ =~= old(text)@ + digits_of(n as int));
}

/// Appends `n` in decimal digits to `text`.
pub fn push_decimal(text: &mut String, n: i64)
    ensures
        final(text)@ == old(text)@ + decimal_text(n as int),
{
    if n < 0 {
        text.push('-');
        let magnitude: u64 = (-(n as i128)) as u64;
        push_digits(text, magnitude);
        assert(text@ =~= old(text)@ + decimal_text(n as int));
    } else {
        push_digits(text, n as u64);
    }
}

/// `n` in decimal digits.
pub fn decimal(n: i64) -> (text: String)
    ensures
        text@ == decimal_text(n as int),
{
    let mut text = String::new();
    push_decimal(&mut text, n);
    assert(text@ =~= decimal_text(n as int));
    text
}

/// The first `count` of `parts` one after the other, with `separator` before
/// each part that follows text.
pub open spec fn joined(parts: Seq<Seq<char>>, separator: Seq<char>, count: nat) -> Seq<char>
    decreases count,
{
    if count == 0 || count > parts.len() {
        Seq::empty()
    } else {
        join(joined(parts, separator, (count - 1) as nat), separator, parts[count - 1])
    }
}

/// `text` and then `part`, with `separator` between them unless `text` is
/// empty.
pub open spec fn join(text: Seq<char>, separator: Seq<char>, part: Seq<char>) -> Seq<char> {
    if text.len() > 0 {
        text + separator + part
    } else {
        part
    }
}

/// Appends `part` to `text`, after `separator` unless `text` is empty.
pub fn push_joined(text: &mut String, separator: &str, part: &str)
    ensures
        final(text)@ == join(old(text)@, separator@, part@),
{
    if !text.as_str().is_empty() {
        text.append(separator);
    }
    text.append(part);
    assert(text@ =~= join(old(text)@, separator@, part@));
}

} // verus!
