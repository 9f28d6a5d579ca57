//! Reading what the storage hands over: lists of identifiers written as
//! decimal numbers with commas between them.

use vstd::prelude::*;
use vstd::string::StringSliceAdditionalSpecFns;

verus! {

/// The byte of the comma.
pub const COMMA: u8 = 44;

/// The byte of the plus sign.
pub const PLUS: u8 = 43;

/// The byte of the digit zero.
pub const ZERO: u8 = 48;

/// Whether `byte` is a decimal digit.
pub open spec fn is_digit(byte: u8) -> bool {
    ZERO <= byte <= ZERO + 9
}

/// The number that `digits` write in decimal.
pub open spec fn number_of(digits: Seq<u8>) -> nat
    decreases digits.len(),
{
    if digits.len() == 0 {
        0
    } else {
        number_of(digits.drop_last()) * 10 + (digits.last() - ZERO) as nat
    }
}

/// The bytes of `piece` after its plus sign, if it starts with one.
pub open spec fn unsigned(piece: Seq<u8>) -> Seq<u8> {
    if piece.len() > 0 && piece[0] == PLUS {
        piece.drop_first()
    } else {
        piece
    }
}

/// The number that `piece` stands for: a plus sign or none, then one digit
/// or more, the whole no greater than the greatest `u32`.
pub open spec fn parsed_number(piece: Seq<u8>) -> Option<u32> {
    let digits = unsigned(piece);
    if digits.len() > 0 && (forall|i: int| 0 <= i < digits.len() ==> is_digit(#[trigger] digits[i]))
        && number_of(digits) <= u32::MAX {
        Some(number_of(digits) as u32)
    } else {
        None
    }
}

/// How many bytes of `text` come before its first comma: all of them when it
/// has none.
pub open spec fn before_comma(text: Seq<u8>) -> int
    decreases text.len(),
{
    if text.len() == 0 || text[0] == COMMA {
        0
    } else {
        1 + before_comma(text.drop_first())
    }
}

/// The numbers that `text` lists, if every piece between its commas stands
/// for a number. A text without a comma is one piece, the empty text too.
pub open spec fn parsed_ids(text: Seq<u8>) -> Option<Seq<u32>>
    decreases text.len(),
{
    let end = before_comma(text);
    match parsed_number(text.take(end)) {
        None => None,
        Some(number) => if 0 <= end < text.len() {
            match parsed_ids(text.skip(end + 1)) {
                None => None,
                Some(rest) => Some(seq![number] + rest),
            }
        } else {
            Some(seq![number])
        },
    }
}

/// The numbers that a column of the storage lists: none where the column is
/// empty.
pub open spec fn parsed_row(value: Option<Seq<u8>>) -> Option<Seq<u32>> {
    match value {
        None => Some(Seq::empty()),
        Some(text) => parsed_ids(text),
    }
}

/// `before_comma` stops at the first comma.
proof fn lemma_before_comma(text: Seq<u8>)
    ensures
        0 <= before_comma(text) <= text.len(),
        forall|k: int| 0 <= k < before_comma(text) ==> text[k] != COMMA,
        before_comma(text) < text.len() ==> text[before_comma(text)] == COMMA,
    decreases text.len(),
{
    if text.len() > 0 && text[0] != COMMA {
        let rest = text.drop_first();
        lemma_before_comma(rest);
        assert forall|k: int| 0 <= k < before_comma(text) implies text[k] != COMMA by {
            if k > 0 {
                assert(text[k] == rest[k - 1]);
            }
        }
        if before_comma(rest) < rest.len() {
            assert(text[before_comma(rest) + 1] == rest[before_comma(rest)]);
        }
    }
}

/// A position with no comma before it, and a comma or the end at it, is
/// where `before_comma` stops.
proof fn lemma_before_comma_at(text: Seq<u8>, end: int)
    requires
        0 <= end <= text.len(),
        forall|k: int| 0 <= k < end ==> text[k] != COMMA,
        end < text.len() ==> text[end] == COMMA,
    ensures
        before_comma(text) == end,
{
    lemma_before_comma(text);
    let found = before_comma(text);
    if found < end {
        assert(text[found] == COMMA);
    }
}

/// More digits do not write a smaller number.
proof fn lemma_number_grows(digits: Seq<u8>, shorter: int)
    requires
        0 <= shorter <= digits.len(),
        forall|i: int| 0 <= i < digits.len() ==> is_digit(#[trigger] digits[i]),
    ensures
        number_of(digits.take(shorter)) <= number_of(digits),
    decreases digits.len() - shorter,
{
    if shorter < digits.len() {
        let fewer = digits.drop_last();
        assert(fewer.take(shorter) =~= digits.take(shorter));
        assert forall|i: int| 0 <= i < fewer.len() implies is_digit(#[trigger] fewer[i]) by {
            assert(fewer[i] == digits[i]);
        }
        lemma_number_grows(fewer, shorter);
        assert(is_digit(digits[digits.len() - 1]));
    } else {
        assert(digits.take(shorter) =~= digits);
    }
}

/// The number that the bytes of `bytes` from `from` up to `to` stand for.
fn parse_number(bytes: &[u8], from: usize, to: usize) -> (number: Option<u32>)
    requires
        from <= to <= bytes@.len(),
    ensures
        number == parsed_number(bytes@.subrange(from as int, to as int)),
{
    let ghost piece = bytes@.subrange(from as int, to as int);
    let mut i = from;
    if i < to && bytes[i] == PLUS {
        i += 1;
    }
    let first = i;
    let ghost digits = bytes@.subrange(first as int, to as int);
    proof {
        if first > from {
            assert(piece[0] == PLUS);
            assert(piece.drop_first() =~= digits);
        } else {
            if piece.len() > 0 {
                assert(piece[0] != PLUS);
            }
            assert(piece =~= digits);
        }
    }
    if i == to {
        return None;
    }
    let mut value: u32 = 0;
    while i < to
        invariant
            first <= i <= to <= bytes@.len(),
            from <= to,
            piece == bytes@.subrange(from as int, to as int),
            digits == unsigned(piece),
            digits == bytes@.subrange(first as int, to as int),
            value == number_of(digits.take(i - first)),
            forall|k: int| 0 <= k < i - first ==> is_digit(#[trigger] digits[k]),
        decreases to - i,
    {
        let byte = bytes[i];
        assert(digits[i - first] == byte);
        if byte < ZERO || byte > ZERO + 9 {
            return None;
        }
        let digit = (byte - ZERO) as u32;
        proof {
            assert(digits.take(i - first + 1).drop_last() =~= digits.take(i - first));
        }
        if value > (u32::MAX - digit) / 10 {
            proof {
                assert(number_of(digits.take(i - first + 1)) > u32::MAX);
                if forall|k: int| 0 <= k < digits.len() ==> is_digit(#[trigger] digits[k]) {
                    lemma_number_grows(digits, i - first + 1);
                }
            }
            return None;
        }
        value = value * 10 + digit;
        i += 1;
    }
    proof {
        assert(digits.take(digits.len() as int) =~= digits);
    }
    Some(value)
}

/// The numbers that `text` lists: decimal numbers with commas between them,
/// each with a plus sign or none. `None` where a piece is no such number or
/// is greater than the greatest `u32`.
pub fn parse_ids(text: &str) -> (ids: Option<Vec<u32>>)
    ensures
        match ids {
            Some(list) => parsed_ids(text.spec_bytes()) == Some(list@),
            None => parsed_ids(text.spec_bytes()) is None,
        },
{
    let bytes = text.as_bytes();
    let ghost whole = bytes@;
    let mut ids: Vec<u32> = Vec::new();
    let mut start: usize = 0;
    proof {
        assert(whole.skip(0) =~= whole);
        match parsed_ids(whole) {
            Some(rest) => {
                assert(ids@ + rest =~= rest);
            },
            None => {},
        }
    }
    loop
        invariant
            whole == bytes@,
            whole == text.spec_bytes(),
            start <= bytes@.len(),
            match parsed_ids(whole.skip(start as int)) {
                Some(rest) => parsed_ids(whole) == Some(ids@ + rest),
                None => parsed_ids(whole) is None,
            },
        decreases bytes@.len() - start,
    {
        let ghost rest = whole.skip(start as int);
        let mut end = start;
        while end < bytes.len() && bytes[end] != COMMA
            invariant
                start <= end <= bytes@.len(),
                whole == bytes@,
                forall|k: int| start <= k < end ==> whole[k] != COMMA,
            decreases bytes@.len() - end,
        {
            end += 1;
        }
        proof {
            lemma_before_comma_at(rest, end - start);
            assert(rest.take(end - start) =~= whole.subrange(start as int, end as int));
        }
        let number = parse_number(bytes, start, end);
        match number {
            None => {
                return None;
            },
            Some(number) => {
                let ghost done = ids@;
                ids.push(number);
                if end == bytes.len() {
                    proof {
                        assert(done + seq![number] =~= ids@);
                    }
                    return Some(ids);
                }
                proof {
                    assert(rest.skip(end - start + 1) =~= whole.skip(end + 1));
                    match parsed_ids(whole.skip(end + 1)) {
                        Some(more) => {
                            assert(done + (seq![number] + more) =~= ids@ + more);
                        },
                        None => {},
                    }
                }
                start = end + 1;
            },
        }
    }
}

/// The numbers that a column of the storage lists: none where the column is
/// empty, and `None` where it holds what is no list of numbers.
pub fn parse_concat_row(value: Option<&str>) -> (ids: Option<Vec<u32>>)
    ensures
        match ids {
            Some(list) => parsed_row(
                match value {
                    Some(text) => Some(text.spec_bytes()),
                    None => None,
                },
            ) == Some(list@),
            None => value matches Some(text) && parsed_ids(text.spec_bytes()) is None,
        },
{
    match value {
        Some(text) => parse_ids(text),
        None => Some(Vec::new()),
    }
}

} // verus!
