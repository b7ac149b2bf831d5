//! Reading an unsigned decimal number: an optional plus sign and then
//! digits, nothing else.

use vstd::prelude::*;
use crate::ascii::{NINE, PLUS, ZERO};

verus! {

/// Why a text is not a number that fits.
#[derive(Clone, Copy, Debug, PartialEq, Eq)]
pub enum ParseFailure {
    /// The text is empty.
    Empty,
    /// The text holds something that is not a digit, or a sign alone.
    InvalidDigit,
    /// The digits stand for more than the largest value.
    TooLarge,
}

impl ParseFailure {
    /// The failure in words.
    pub open spec fn reason(self) -> Seq<char> {
        match self {
            ParseFailure::Empty => "cannot parse integer from empty string"@,
            ParseFailure::InvalidDigit => "invalid digit found in string"@,
            ParseFailure::TooLarge => "number too large to fit in target type"@,
        }
    }

    /// Gives the failure in words.
    pub fn describe(&self) -> (text: &'static str)
        ensures
            text@ == self.reason(),
    {
        match self {
            ParseFailure::Empty => "cannot parse integer from empty string",
            ParseFailure::InvalidDigit => "invalid digit found in string",
            ParseFailure::TooLarge => "number too large to fit in target type",
        }
    }
}

/// `byte` is an ASCII digit.
pub open spec fn is_digit(byte: u8) -> bool {
    ZERO <= byte <= NINE
}

/// How many digits `text` begins with.
pub open spec fn digit_prefix_len(text: Seq<u8>) -> nat
    decreases text.len(),
{
    if text.len() > 0 && is_digit(text[0]) {
        1 + digit_prefix_len(text.skip(1))
    } else {
        0
    }
}

/// The number that the digits `digits` stand for.
pub open spec fn decimal_value(digits: Seq<u8>) -> nat
    decreases digits.len(),
{
    if digits.len() == 0 {
        0
    } else {
        (decimal_value(digits.drop_last()) * 10 + (digits.last() - ZERO)) as nat
    }
}

/// `text` without the plus sign that may lead it.
pub open spec fn unsigned_body(text: Seq<u8>) -> Seq<u8> {
    if text.len() > 0 && text[0] == PLUS {
        text.skip(1)
    } else {
        text
    }
}

/// What `text` is read as, with `max` the largest value: the number that
/// its digits stand for, where it is digits behind at most one plus sign
/// and the number is no more than `max`. Read from the left, digits that
/// pass `max` fail as too large before anything behind them is looked at.
pub open spec fn parse_unsigned(text: Seq<u8>, max: nat) -> Result<nat, ParseFailure> {
    let body = unsigned_body(text);
    let lead = body.take(digit_prefix_len(body) as int);
    if text.len() == 0 {
        Err(ParseFailure::Empty)
    } else if body.len() == 0 {
        Err(ParseFailure::InvalidDigit)
    } else if decimal_value(lead) > max {
        Err(ParseFailure::TooLarge)
    } else if lead.len() < body.len() {
        Err(ParseFailure::InvalidDigit)
    } else {
        Ok(decimal_value(body))
    }
}

/// The leading digits are digits, lie within the text, and end at the
/// first byte that is no digit.
pub proof fn lemma_digit_prefix(text: Seq<u8>)
    ensures
        digit_prefix_len(text) <= text.len(),
        forall|j: int| 0 <= j < digit_prefix_len(text) ==> is_digit(#[trigger] text[j]),
        digit_prefix_len(text) < text.len() ==> !is_digit(text[digit_prefix_len(text) as int]),
    decreases text.len(),
{
    if text.len() > 0 && is_digit(text[0]) {
        let rest = text.skip(1);
        lemma_digit_prefix(rest);
        assert forall|j: int| 0 <= j < digit_prefix_len(text) implies is_digit(
            #[trigger] text[j],
        ) by {
            if j > 0 {
                assert(text[j] == rest[j - 1]);
            }
        }
        if digit_prefix_len(text) < text.len() {
            assert(text[digit_prefix_len(text) as int] == rest[digit_prefix_len(rest) as int]);
        }
    }
}

/// Where the first `count` bytes are digits, the leading digits are at
/// least as many.
pub proof fn lemma_digit_prefix_covers(text: Seq<u8>, count: int)
    requires
        0 <= count <= text.len(),
        forall|j: int| 0 <= j < count ==> is_digit(#[trigger] text[j]),
    ensures
        digit_prefix_len(text) >= count,
{
    lemma_digit_prefix(text);
    if digit_prefix_len(text) < count {
        assert(is_digit(text[digit_prefix_len(text) as int]));
    }
}

/// More digits never stand for less.
pub proof fn lemma_decimal_value_grows(digits: Seq<u8>, shorter: int, longer: int)
    requires
        0 <= shorter <= longer <= digits.len(),
        forall|j: int| 0 <= j < longer ==> is_digit(#[trigger] digits[j]),
    ensures
        decimal_value(digits.take(shorter)) <= decimal_value(digits.take(longer)),
    decreases longer - shorter,
{
    if shorter < longer {
        lemma_decimal_value_grows(digits, shorter, longer - 1);
        assert(digits.take(longer).drop_last() =~= digits.take(longer - 1));
        assert(digits.take(longer).last() == digits[longer - 1]);
    }
}

/// Reads `text` as a number of a machine word.
pub fn parse_usize(text: &[u8]) -> (parsed: Result<usize, ParseFailure>)
    ensures
        match parse_unsigned(text@, usize::MAX as nat) {
            Ok(value) => parsed is Ok && parsed->Ok_0 == value,
            Err(failure) => parsed == Err::<usize, ParseFailure>(failure),
        },
{
    if text.len() == 0 {
        return Err(ParseFailure::Empty);
    }
    let start: usize = if text[0] == PLUS {
        1
    } else {
        0
    };
    let ghost body = unsigned_body(text@);
    assert(body =~= text@.skip(start as int));
    if start == text.len() {
        return Err(ParseFailure::InvalidDigit);
    }
    let mut value: usize = 0;
    let mut i: usize = start;
    assert(body.take(0) =~= Seq::<u8>::empty());
    while i < text.len()
        invariant
            start <= i <= text@.len(),
            start < text@.len(),
            body == unsigned_body(text@),
            body == text@.skip(start as int),
            forall|j: int| 0 <= j < i - start ==> is_digit(#[trigger] body[j]),
            value == decimal_value(body.take(i - start)),
        decreases text@.len() - i,
    {
        let byte = text[i];
        assert(byte == body[i - start]);
        if byte < ZERO || byte > NINE {
            proof {
                lemma_digit_prefix(body);
                lemma_digit_prefix_covers(body, i - start);
                if digit_prefix_len(body) > i - start {
                    assert(is_digit(body[i - start]));
                }
            }
            return Err(ParseFailure::InvalidDigit);
        }
        let digit: usize = (byte - ZERO) as usize;
        proof {
            assert(body.take(i - start + 1).drop_last() =~= body.take(i - start));
            assert(body.take(i - start + 1).last() == byte);
        }
        if value > (usize::MAX - digit) / 10 {
            proof {
                lemma_digit_prefix(body);
                lemma_digit_prefix_covers(body, i - start + 1);
                lemma_decimal_value_grows(body, i - start + 1, digit_prefix_len(body) as int);
            }
            return Err(ParseFailure::TooLarge);
        }
        value = value * 10 + digit;
        i += 1;
    }
    proof {
        lemma_digit_prefix(body);
        lemma_digit_prefix_covers(body, body.len() as int);
        assert(body.take(body.len() as int) =~= body);
    }
    Ok(value)
}

} // verus!
