//! Text: what the library takes on trust about the standard library's
//! `String` and `char`, and numbers written in decimal.

use vstd::prelude::*;

verus! {

/// Whether `c` is a letter or a digit, as `char::is_alphanumeric` decides it
/// from the Unicode character tables.
pub uninterp spec fn letter_or_digit(c: char) -> bool;

/// `String::push` appends the character to the end of the string.
pub assume_specification[ String::push ](text: &mut String, ch: char)
    ensures
        final(text)@ == old(text)@.push(ch),
;

/// `String::pop` removes the last character and returns it, and returns
/// `None` and leaves the string as it is when it is empty.
pub assume_specification[ String::pop ](text: &mut String) -> (last: Option<char>)
    ensures
        old(text)@.len() == 0 ==> last is None && final(text)@ == old(text)@,
        old(text)@.len() > 0 ==> last == Some(old(text)@.last()) && final(text)@ == old(
            text,
        )@.drop_last(),
;

/// `char::is_alphanumeric` tells whether the character is a letter or a
/// digit; the answer depends on the character alone.
pub assume_specification[ char::is_alphanumeric ](c: char) -> (r: bool)
    ensures
        r == letter_or_digit(c),
;

/// `String::push_str` appends the slice to the end of the string.
pub assume_specification[ String::push_str ](text: &mut String, more: &str)
    ensures
        final(text)@ == old(text)@ + more@,
;

/// The character of the decimal digit `digit`.
pub open spec fn digit_char(digit: nat) -> char {
    (48 + digit) as char
}

/// `n` written in decimal, without leading zeros.
pub open spec fn spec_decimal(n: nat) -> Seq<char>
    decreases n,
{
    if n < 10 {
        seq![digit_char(n)]
    } else {
        spec_decimal(n / 10).push(digit_char(n % 10))
    }
}

/// The digits of `n` but for the last, none where `n` has one digit.
spec fn leading_digits(n: nat) -> Seq<char> {
    if n < 10 {
        Seq::empty()
    } else {
        spec_decimal(n / 10)
    }
}

/// `n` written in decimal, without leading zeros.
pub fn decimal(n: usize) -> (text: String)
    ensures
        text@ == spec_decimal(n as nat),
{
    let mut digits: Vec<char> = Vec::new();
    let ghost mut tail: Seq<char> = Seq::empty();
    let mut rest = n;
    loop
        invariant_except_break
            digits@.len() == tail.len(),
            forall|k: int| 0 <= k < tail.len() ==> digits@[k] == tail[tail.len() - 1 - k],
            spec_decimal(n as nat) == spec_decimal(rest as nat) + tail,
        ensures
            digits@.len() == tail.len(),
            forall|k: int| 0 <= k < tail.len() ==> digits@[k] == tail[tail.len() - 1 - k],
            spec_decimal(n as nat) == tail,
        decreases rest,
    {
        let digit = ((48 + rest % 10) as u8) as char;
        assert(digit == digit_char((rest % 10) as nat));
        let ghost before = tail;
        digits.push(digit);
        proof {
            tail = seq![digit] + before;
            assert(spec_decimal(rest as nat) + before =~= leading_digits(rest as nat) + tail);
            assert forall|k: int| 0 <= k < tail.len() implies digits@[k] == tail[tail.len() - 1
                - k] by {
                if k < before.len() {
                    assert(tail[tail.len() - 1 - k] == before[before.len() - 1 - k]);
                }
            }
        }
        if rest < 10 {
            proof {
                assert(leading_digits(rest as nat) + tail =~= tail);
            }
            break ;
        }
        rest = rest / 10;
    }
    let mut text = String::new();
    let mut i = digits.len();
    while i > 0
        invariant
            i <= digits@.len(),
            digits@.len() == tail.len(),
            forall|k: int| 0 <= k < tail.len() ==> digits@[k] == tail[tail.len() - 1 - k],
            text@ == tail.take(tail.len() - i),
        decreases i,
    {
        i -= 1;
        let ghost before = text@;
        text.push(digits[i]);
        proof {
            assert(text@ =~= tail.take(tail.len() - i));
        }
    }
    proof {
        assert(tail.take(tail.len() as int) =~= tail);
    }
    text
}

} // verus!
