//! The truncating engine: keeps the first lines of an input as they are, or
//! its first bytes, decoded as text.

use vstd::prelude::*;
use vstd::seq_lib::lemma_flatten_concat;
use vstd::slice::slice_subrange;
use vstd::utf8::{decode_utf8, decode_utf8_encode_utf8, encode_utf8, valid_utf8};
use crate::lines::{
    first_line_len, lemma_first_line, lemma_lines_of_flattened, lemma_lines_reassemble,
    lemma_prefix_of_lines, lemma_raw_lines_are_lines, line_end, raw_lines,
};

verus! {

/// What bounds the output for one input.
#[derive(Clone, Copy, Debug, PartialEq, Eq)]
pub enum TruncateMode {
    /// At most this many lines.
    Lines(usize),
    /// At most this many bytes.
    Bytes(usize),
}

/// The first `limit` bytes of `content`, or all of it where it has fewer.
pub open spec fn byte_window(content: Seq<u8>, limit: nat) -> Seq<u8> {
    if limit < content.len() {
        content.take(limit as int)
    } else {
        content
    }
}

/// The first `limit` lines of `lines`, or all of them where there are
/// fewer.
pub open spec fn first_lines(lines: Seq<Seq<u8>>, limit: nat) -> Seq<Seq<u8>> {
    if limit < lines.len() {
        lines.take(limit as int)
    } else {
        lines
    }
}

/// The first `limit` lines of `content`, each with its terminator as it
/// stands there, or all of `content` where it has fewer lines.
pub open spec fn line_window(content: Seq<u8>, limit: nat) -> Seq<u8> {
    first_lines(raw_lines(content), limit).flatten()
}

/// The text that lossy UTF-8 decoding makes of `bytes`: what is valid is
/// decoded, and what is not is replaced by U+FFFD.
pub uninterp spec fn lossy_utf8(bytes: Seq<u8>) -> Seq<char>;

/// What the engine writes in byte mode: the window, decoded with
/// replacements, as UTF-8 again.
pub open spec fn decoded_window(content: Seq<u8>, limit: nat) -> Seq<u8> {
    encode_utf8(lossy_utf8(byte_window(content, limit)))
}

/// What the engine writes for an input that holds `content`.
pub open spec fn truncated(content: Seq<u8>, mode: TruncateMode) -> Seq<u8> {
    match mode {
        TruncateMode::Lines(limit) => line_window(content, limit as nat),
        TruncateMode::Bytes(limit) => decoded_window(content, limit as nat),
    }
}

/// A window of `limit` bytes holds `limit` bytes, or all there are; it is
/// the beginning of the content; and the window of a window is the window
/// itself.
pub proof fn lemma_byte_window(content: Seq<u8>, limit: nat)
    ensures
        byte_window(content, limit).len() == if limit < content.len() {
            limit
        } else {
            content.len()
        },
        byte_window(content, limit) == content.take(byte_window(content, limit).len() as int),
        content.len() <= limit ==> byte_window(content, limit) == content,
        byte_window(byte_window(content, limit), limit) == byte_window(content, limit),
        decoded_window(byte_window(content, limit), limit) == decoded_window(content, limit),
{
    assert(content.take(content.len() as int) =~= content);
}

/// A window of `limit` lines holds `limit` lines of the content, or all
/// there are, and each is the line of the content with its terminator.
pub proof fn lemma_line_window_lines(content: Seq<u8>, limit: nat)
    ensures
        raw_lines(line_window(content, limit)) == first_lines(raw_lines(content), limit),
        raw_lines(line_window(content, limit)).len() <= limit,
        raw_lines(line_window(content, limit)).len() == if limit < raw_lines(content).len() {
            limit
        } else {
            raw_lines(content).len()
        },
{
    let lines = raw_lines(content);
    lemma_raw_lines_are_lines(content);
    if limit < lines.len() {
        lemma_prefix_of_lines(lines, limit as int);
    }
    lemma_lines_of_flattened(first_lines(lines, limit));
}

/// A window of lines is the beginning of the content.
pub proof fn lemma_line_window_is_prefix(content: Seq<u8>, limit: nat)
    ensures
        line_window(content, limit).len() <= content.len(),
        line_window(content, limit) == content.take(line_window(content, limit).len() as int),
{
    let lines = raw_lines(content);
    lemma_lines_reassemble(content);
    if limit < lines.len() {
        let head = lines.take(limit as int);
        let tail = lines.skip(limit as int);
        assert(head + tail =~= lines);
        lemma_flatten_concat(head, tail);
        assert(content =~= head.flatten() + tail.flatten());
        assert(content.take(head.flatten().len() as int) =~= head.flatten());
    } else {
        assert(content.take(content.len() as int) =~= content);
    }
}

/// Takes the first `limit` bytes of `content`, or all of it.
pub fn take_bytes(content: &[u8], limit: usize) -> (window: &[u8])
    ensures
        window@ == byte_window(content@, limit as nat),
{
    if limit < content.len() {
        let window = slice_subrange(content, 0, limit);
        assert(window@ =~= content@.take(limit as int));
        window
    } else {
        content
    }
}

/// Counts the lines of `content` up to `limit` and finds where the last of
/// them ends.
pub fn measure_lines(content: &[u8], limit: usize) -> (found: (usize, usize))
    ensures
        found.0 == first_lines(raw_lines(content@), limit as nat).len(),
        found.1 == line_window(content@, limit as nat).len(),
        found.1 <= content@.len(),
        content@.take(found.1 as int) == line_window(content@, limit as nat),
{
    let mut count: usize = 0;
    let mut pos: usize = 0;
    let ghost mut done: Seq<Seq<u8>> = Seq::empty();
    proof {
        assert(content@.skip(0) =~= content@);
        assert(done.flatten() =~= content@.take(0));
    }
    while count < limit && pos < content.len()
        invariant
            pos <= content@.len(),
            count <= limit,
            done.len() == count,
            raw_lines(content@) == done + raw_lines(content@.skip(pos as int)),
            done.flatten() == content@.take(pos as int),
        decreases content@.len() - pos,
    {
        let end = line_end(content, pos);
        proof {
            let here = content@.skip(pos as int);
            let line = content@.subrange(pos as int, end as int);
            lemma_first_line(here);
            assert(here.take(first_line_len(here) as int) =~= line);
            assert(here.skip(first_line_len(here) as int) =~= content@.skip(end as int));
            assert(raw_lines(here) =~= seq![line] + raw_lines(content@.skip(end as int)));
            assert(raw_lines(content@) =~= done.push(line) + raw_lines(content@.skip(end as int)));
            done.lemma_flatten_push(line);
            assert(content@.take(pos as int) + line =~= content@.take(end as int));
            done = done.push(line);
        }
        count += 1;
        pos = end;
    }
    proof {
        let rest = raw_lines(content@.skip(pos as int));
        let lines = raw_lines(content@);
        if pos < content@.len() {
            lemma_first_line(content@.skip(pos as int));
            assert(rest.len() >= 1);
            assert(lines.take(limit as int) =~= done);
        } else {
            assert(rest =~= Seq::<Seq<u8>>::empty());
            assert(lines =~= done);
            if limit < lines.len() {
                assert(lines.take(limit as int) =~= done);
            }
        }
        assert(first_lines(lines, limit as nat) == done);
    }
    (count, pos)
}

/// Takes the first `limit` lines of `content`, or all of it.
pub fn take_lines(content: &[u8], limit: usize) -> (window: &[u8])
    ensures
        window@ == line_window(content@, limit as nat),
{
    let found = measure_lines(content, limit);
    let window = slice_subrange(content, 0, found.1);
    assert(window@ =~= content@.take(found.1 as int));
    window
}

/// Decodes `bytes` with `String::from_utf8_lossy`, which never fails: it
/// replaces what is not UTF-8. The result is named, not described, but for
/// bytes that are UTF-8, whose text it is.
#[verifier::external_body]
fn decode_lossy(bytes: &[u8]) -> (text: String)
    ensures
        text@ == lossy_utf8(bytes@),
        valid_utf8(bytes@) ==> text@ == decode_utf8(bytes@),
{
    String::from_utf8_lossy(bytes).into_owned()
}

/// Gives the UTF-8 bytes of a decoded text.
pub fn encode_text(text: &str) -> (out: Vec<u8>)
    ensures
        out@ == encode_utf8(text@),
{
    text.as_bytes_vec()
}

/// Takes the first `limit` bytes of `content`, or all of it, and decodes
/// them with replacements. A window that is UTF-8 comes out as it is.
pub fn head_bytes(content: &[u8], limit: usize) -> (out: Vec<u8>)
    ensures
        out@ == decoded_window(content@, limit as nat),
        valid_utf8(byte_window(content@, limit as nat)) ==> out@ == byte_window(
            content@,
            limit as nat,
        ),
{
    let window = take_bytes(content, limit);
    let text = decode_lossy(window);
    proof {
        if valid_utf8(window@) {
            decode_utf8_encode_utf8(window@);
        }
    }
    encode_text(text.as_str())
}

/// Writes what `mode` keeps of `content`.
pub fn truncate(content: &[u8], mode: TruncateMode) -> (out: Vec<u8>)
    ensures
        out@ == truncated(content@, mode),
{
    match mode {
        TruncateMode::Lines(limit) => {
            let window = take_lines(content, limit);
            let mut out: Vec<u8> = Vec::new();
            crate::ascii::append(&mut out, window);
            out
        },
        TruncateMode::Bytes(limit) => head_bytes(content, limit),
    }
}

} // verus!
