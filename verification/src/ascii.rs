//! The ASCII codes that the formats in this crate are made of, and a helper
//! that appends bytes to an output buffer.

use vstd::prelude::*;

verus! {

/// Horizontal tab, which separates a line number from the line.
pub const TAB: u8 = 9;

/// Line feed, the line terminator.
pub const NEWLINE: u8 = 10;

/// Carriage return, which may precede a line feed.
pub const CARRIAGE_RETURN: u8 = 13;

/// Space, the padding of a number field.
pub const SPACE: u8 = 32;

/// The hyphen, which alone names the standard input.
pub const HYPHEN: u8 = 45;

/// The plus sign, which may lead a number.
pub const PLUS: u8 = 43;

/// The digit zero; the other digits follow it.
pub const ZERO: u8 = 48;

/// The digit nine.
pub const NINE: u8 = 57;

/// The colon, which follows the name in a diagnostic.
pub const COLON: u8 = 58;

/// The less-than sign, which opens the closing arrow of a header.
pub const LESS_THAN: u8 = 60;

/// The equals sign, the shaft of the arrows of a header.
pub const EQUALS: u8 = 61;

/// The greater-than sign, which closes the opening arrow of a header.
pub const GREATER_THAN: u8 = 62;

/// Appends the bytes of `src` to `out`.
pub fn append(out: &mut Vec<u8>, src: &[u8])
    ensures
        final(out)@ == old(out)@ + src@,
{
    let ghost before = out@;
    let mut i: usize = 0;
    while i < src.len()
        invariant
            i <= src@.len(),
            out@ == before + src@.take(i as int),
        decreases src@.len() - i,
    {
        out.push(src[i]);
        i += 1;
        assert(out@ =~= before + src@.take(i as int));
    }
    assert(src@.take(i as int) =~= src@);
}

} // verus!
