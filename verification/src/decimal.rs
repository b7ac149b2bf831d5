//! Decimal rendering of line numbers in a right-justified field.

use vstd::prelude::*;
use crate::ascii::{SPACE, ZERO};

verus! {

/// The width of the field that a line number is written in.
pub const NUMBER_WIDTH: usize = 6;

/// The decimal digits of `n`, most significant first, as ASCII bytes.
pub open spec fn digits(n: nat) -> Seq<u8>
    decreases n,
{
    if n < 10 {
        seq![(ZERO + n) as u8]
    } else {
        digits(n / 10).push((ZERO + n % 10) as u8)
    }
}

/// `count` spaces.
pub open spec fn spaces(count: nat) -> Seq<u8> {
    Seq::new(count, |i: int| SPACE)
}

/// `text` moved to the right edge of a field of `width` bytes by spaces on
/// its left. A text that is wider than the field is left as it is.
pub open spec fn right_justified(text: Seq<u8>, width: nat) -> Seq<u8> {
    if text.len() < width {
        spaces((width - text.len()) as nat) + text
    } else {
        text
    }
}

/// The field that shows the line number `n`.
pub open spec fn number_field(n: nat) -> Seq<u8> {
    right_justified(digits(n), NUMBER_WIDTH as nat)
}

/// A number has at least one digit, and each is an ASCII digit.
pub proof fn lemma_digits_are_digits(n: nat)
    ensures
        digits(n).len() >= 1,
        forall|i: int| 0 <= i < digits(n).len() ==> ZERO <= #[trigger] digits(n)[i] <= ZERO + 9,
    decreases n,
{
    if n >= 10 {
        lemma_digits_are_digits(n / 10);
    }
}

/// Appends the number field of `n` to `out`.
pub fn push_number(out: &mut Vec<u8>, n: usize)
    ensures
        final(out)@ == old(out)@ + number_field(n as nat),
{
    let ghost before = out@;
    let mut reversed: Vec<u8> = Vec::new();
    let mut rest: usize = n / 10;
    reversed.push(ZERO + (n % 10) as u8);
    while rest > 0
        invariant
            reversed@.len() >= 1,
            digits(n as nat) == (if rest > 0 {
                digits(rest as nat)
            } else {
                Seq::<u8>::empty()
            }) + reversed@.reverse(),
        decreases rest,
    {
        let ghost old_rest = rest;
        let ghost old_reversed = reversed@;
        reversed.push(ZERO + (rest % 10) as u8);
        rest = rest / 10;
        proof {
            let d = (ZERO + old_rest % 10) as u8;
            assert(reversed@.reverse() =~= seq![d] + old_reversed.reverse());
            if old_rest < 10 {
                assert(digits(old_rest as nat) =~= seq![d]);
            } else {
                assert(digits(old_rest as nat) =~= digits(rest as nat) + seq![d]);
            }
            assert(digits(n as nat) =~= (if rest > 0 {
                digits(rest as nat)
            } else {
                Seq::<u8>::empty()
            }) + reversed@.reverse());
        }
    }
    assert(digits(n as nat) =~= reversed@.reverse());
    let count: usize = reversed.len();
    let mut padding: usize = 0;
    while count < NUMBER_WIDTH && padding < NUMBER_WIDTH - count
        invariant
            count == reversed@.len(),
            count < NUMBER_WIDTH ==> padding <= NUMBER_WIDTH - count,
            count >= NUMBER_WIDTH ==> padding == 0,
            out@ == before + spaces(padding as nat),
        decreases NUMBER_WIDTH - padding,
    {
        out.push(SPACE);
        padding += 1;
        assert(out@ =~= before + spaces(padding as nat));
    }
    let ghost padded = out@;
    let mut left: usize = count;
    while left > 0
        invariant
            left <= count,
            count == reversed@.len(),
            out@ == padded + reversed@.reverse().take(count - left),
        decreases left,
    {
        left -= 1;
        out.push(reversed[left]);
        assert(out@ =~= padded + reversed@.reverse().take(count - left));
    }
    assert(reversed@.reverse().take(count as int) =~= reversed@.reverse());
    assert(out@ =~= before + number_field(n as nat));
}

} // verus!
