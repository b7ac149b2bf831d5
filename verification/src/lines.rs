//! How a byte sequence divides into lines.
//!
//! A line ends with a line feed; what follows the last line feed is a line
//! too when it is not empty. The lines of a sequence, each with its
//! terminator, put one after the other give the sequence back.

use vstd::prelude::*;
use vstd::seq_lib::lemma_flatten_concat;
use crate::ascii::{CARRIAGE_RETURN, NEWLINE};

verus! {

/// The length of the first line of `s`, its terminator included: the place
/// just after the first line feed, or the whole length where there is none.
pub open spec fn first_line_len(s: Seq<u8>) -> nat
    decreases s.len(),
{
    if s.len() == 0 {
        0
    } else if s[0] == NEWLINE {
        1
    } else {
        1 + first_line_len(s.skip(1))
    }
}

/// The lines of `s`, each with its terminator as it stands in `s`.
pub open spec fn raw_lines(s: Seq<u8>) -> Seq<Seq<u8>>
    decreases s.len(),
    via raw_lines_decreases
{
    if s.len() == 0 {
        Seq::empty()
    } else {
        seq![s.take(first_line_len(s) as int)] + raw_lines(s.skip(first_line_len(s) as int))
    }
}

#[via_fn]
proof fn raw_lines_decreases(s: Seq<u8>) {
    if s.len() > 0 {
        lemma_first_line(s);
    }
}

/// `line` without its terminator: a final line feed goes, and with it a
/// carriage return that stands directly before it.
pub open spec fn strip_terminator(line: Seq<u8>) -> Seq<u8> {
    if line.len() >= 1 && line.last() == NEWLINE {
        if line.len() >= 2 && line[line.len() - 2] == CARRIAGE_RETURN {
            line.take(line.len() - 2)
        } else {
            line.take(line.len() - 1)
        }
    } else {
        line
    }
}

/// The lines of `s` without their terminators.
pub open spec fn text_lines(s: Seq<u8>) -> Seq<Seq<u8>> {
    Seq::new(raw_lines(s).len(), |k: int| strip_terminator(raw_lines(s)[k]))
}

/// `line` holds no line feed.
pub open spec fn has_no_newline(line: Seq<u8>) -> bool {
    forall|i: int| 0 <= i < line.len() ==> line[i] != NEWLINE
}

/// `line` is a line with its terminator: it ends with a line feed and holds
/// no other.
pub open spec fn is_terminated_line(line: Seq<u8>) -> bool {
    &&& line.len() >= 1
    &&& line.last() == NEWLINE
    &&& has_no_newline(line.drop_last())
}

/// `line` is a last line that lacks its terminator: it is not empty and
/// holds no line feed.
pub open spec fn is_open_line(line: Seq<u8>) -> bool {
    line.len() >= 1 && has_no_newline(line)
}

/// `lines` can be the lines of a byte sequence: each is terminated, but the
/// last may be open.
pub open spec fn are_lines(lines: Seq<Seq<u8>>) -> bool {
    forall|k: int|
        0 <= k < lines.len() ==> (is_terminated_line(#[trigger] lines[k]) || (k == lines.len() - 1
            && is_open_line(lines[k])))
}

/// The first line is not empty where `s` is not, lies within `s`, holds a
/// line feed at its end only, and ends with one unless it ends `s`.
pub proof fn lemma_first_line(s: Seq<u8>)
    ensures
        first_line_len(s) <= s.len(),
        s.len() > 0 ==> first_line_len(s) >= 1,
        forall|i: int| 0 <= i < first_line_len(s) - 1 ==> s[i] != NEWLINE,
        first_line_len(s) < s.len() ==> s[first_line_len(s) - 1] == NEWLINE,
    decreases s.len(),
{
    if s.len() > 0 && s[0] != NEWLINE {
        let rest = s.skip(1);
        lemma_first_line(rest);
        assert forall|i: int| 0 <= i < first_line_len(s) - 1 implies s[i] != NEWLINE by {
            if i > 0 {
                assert(s[i] == rest[i - 1]);
            }
        }
        if first_line_len(s) < s.len() {
            assert(s[first_line_len(s) - 1] == rest[first_line_len(rest) - 1]);
        }
    }
}

/// The first line of `s` is a terminated line, or an open one that is all
/// of `s`.
pub proof fn lemma_first_line_shape(s: Seq<u8>)
    requires
        s.len() > 0,
    ensures
        is_terminated_line(s.take(first_line_len(s) as int)) || (first_line_len(s) == s.len()
            && is_open_line(s)),
{
    lemma_first_line(s);
    let k = first_line_len(s) as int;
    let line = s.take(k);
    if s[k - 1] == NEWLINE {
        assert(line.last() == NEWLINE);
        assert forall|i: int| 0 <= i < line.drop_last().len() implies line.drop_last()[i]
            != NEWLINE by {
            assert(line.drop_last()[i] == s[i]);
        }
    } else {
        assert(k == s.len());
        assert forall|i: int| 0 <= i < s.len() implies s[i] != NEWLINE by {
            if i == k - 1 {
            } else {
                assert(0 <= i < first_line_len(s) - 1);
            }
        }
    }
}

/// A sequence that begins with a terminated line has that line as its first.
pub proof fn lemma_first_line_of_terminated(line: Seq<u8>, rest: Seq<u8>)
    requires
        is_terminated_line(line),
    ensures
        first_line_len(line + rest) == line.len(),
    decreases line.len(),
{
    let s = line + rest;
    if line.len() == 1 {
        assert(s[0] == line[0]);
    } else {
        assert(line.drop_last()[0] == line[0]);
        assert(s[0] == line[0]);
        let tail = line.skip(1);
        assert(tail.last() == line.last());
        assert forall|i: int| 0 <= i < tail.drop_last().len() implies tail.drop_last()[i]
            != NEWLINE by {
            assert(tail.drop_last()[i] == line.drop_last()[i + 1]);
        }
        lemma_first_line_of_terminated(tail, rest);
        assert(s.skip(1) =~= tail + rest);
    }
}

/// An open line is its own first line.
pub proof fn lemma_first_line_of_open(line: Seq<u8>)
    requires
        has_no_newline(line),
    ensures
        first_line_len(line) == line.len(),
    decreases line.len(),
{
    if line.len() > 0 {
        let tail = line.skip(1);
        assert forall|i: int| 0 <= i < tail.len() implies tail[i] != NEWLINE by {
            assert(tail[i] == line[i + 1]);
        }
        lemma_first_line_of_open(tail);
    }
}

/// The lines of a sequence are lines: each is terminated, or is the last
/// and open.
pub proof fn lemma_raw_lines_are_lines(s: Seq<u8>)
    ensures
        are_lines(raw_lines(s)),
    decreases s.len(),
{
    if s.len() > 0 {
        lemma_first_line(s);
        lemma_first_line_shape(s);
        let k = first_line_len(s) as int;
        let rest = s.skip(k);
        lemma_raw_lines_are_lines(rest);
        let lines = raw_lines(s);
        assert(lines =~= seq![s.take(k)] + raw_lines(rest));
        assert forall|j: int| 0 <= j < lines.len() implies (is_terminated_line(#[trigger] lines[j])
            || (j == lines.len() - 1 && is_open_line(lines[j]))) by {
            if j == 0 {
                if !is_terminated_line(s.take(k)) {
                    assert(s.take(k) =~= s);
                    assert(rest.len() == 0);
                }
            } else {
                assert(lines[j] == raw_lines(rest)[j - 1]);
            }
        }
    }
}

/// The lines of a sequence, one after the other, are the sequence.
pub proof fn lemma_lines_reassemble(s: Seq<u8>)
    ensures
        raw_lines(s).flatten() == s,
    decreases s.len(),
{
    if s.len() > 0 {
        lemma_first_line(s);
        let k = first_line_len(s) as int;
        lemma_lines_reassemble(s.skip(k));
        lemma_flatten_concat(seq![s.take(k)], raw_lines(s.skip(k)));
        seq![s.take(k)].lemma_flatten_one_element();
        assert(s.take(k) + s.skip(k) =~= s);
    } else {
        assert(raw_lines(s).flatten() =~= s);
    }
}

/// Lines put one after the other divide into those lines again.
pub proof fn lemma_lines_of_flattened(lines: Seq<Seq<u8>>)
    requires
        are_lines(lines),
    ensures
        raw_lines(lines.flatten()) == lines,
    decreases lines.len(),
{
    if lines.len() == 0 {
        assert(lines.flatten() =~= Seq::<u8>::empty());
        assert(raw_lines(lines.flatten()) =~= lines);
    } else {
        let first = lines.first();
        let others = lines.drop_first();
        assert(is_terminated_line(lines[0]) || (0 == lines.len() - 1 && is_open_line(lines[0])));
        assert forall|k: int| 0 <= k < others.len() implies (is_terminated_line(
            #[trigger] others[k],
        ) || (k == others.len() - 1 && is_open_line(others[k]))) by {
            assert(others[k] == lines[k + 1]);
        }
        lemma_lines_of_flattened(others);
        let s = lines.flatten();
        assert(s =~= first + others.flatten());
        if is_terminated_line(first) {
            lemma_first_line_of_terminated(first, others.flatten());
        } else {
            assert(others.len() == 0);
            assert(others.flatten() =~= Seq::<u8>::empty());
            assert(s =~= first);
            lemma_first_line_of_open(first);
        }
        assert(first_line_len(s) == first.len());
        assert(s.take(first.len() as int) =~= first);
        assert(s.skip(first.len() as int) =~= others.flatten());
        assert(raw_lines(s) =~= seq![first] + raw_lines(others.flatten()));
        assert(raw_lines(s) =~= lines);
    }
}

/// The first lines of a sequence are lines as well.
pub proof fn lemma_prefix_of_lines(lines: Seq<Seq<u8>>, count: int)
    requires
        are_lines(lines),
        0 <= count <= lines.len(),
    ensures
        are_lines(lines.take(count)),
{
    let head = lines.take(count);
    assert forall|k: int| 0 <= k < head.len() implies (is_terminated_line(#[trigger] head[k]) || (k
        == head.len() - 1 && is_open_line(head[k]))) by {
        assert(head[k] == lines[k]);
    }
}

/// Finds the end of the line that starts at `start`: the place just after
/// its line feed, or the end of `content` where the line has none.
pub fn line_end(content: &[u8], start: usize) -> (end: usize)
    requires
        start <= content@.len(),
    ensures
        end == start + first_line_len(content@.skip(start as int)),
        start <= end <= content@.len(),
{
    let mut i: usize = start;
    while i < content.len() && content[i] != NEWLINE
        invariant
            start <= i <= content@.len(),
            first_line_len(content@.skip(start as int)) == (i - start) + first_line_len(
                content@.skip(i as int),
            ),
        decreases content@.len() - i,
    {
        proof {
            let here = content@.skip(i as int);
            assert(here[0] == content@[i as int]);
            assert(here.skip(1) =~= content@.skip(i + 1));
        }
        i += 1;
    }
    proof {
        let here = content@.skip(i as int);
        if i < content@.len() {
            assert(here[0] == content@[i as int]);
        }
        lemma_first_line(here);
    }
    if i < content.len() {
        i + 1
    } else {
        i
    }
}

/// Finds the end of the text of the line that lies between `start` and
/// `end`: where its terminator begins, or `end` where it has none.
pub fn text_end(content: &[u8], start: usize, end: usize) -> (stop: usize)
    requires
        start <= end <= content@.len(),
    ensures
        start <= stop <= end,
        content@.subrange(start as int, stop as int) == strip_terminator(
            content@.subrange(start as int, end as int),
        ),
{
    let ghost line = content@.subrange(start as int, end as int);
    proof {
        if end > start {
            assert(line.last() == content@[end - 1]);
        }
        if end - start >= 2 {
            assert(line[line.len() - 2] == content@[end - 2]);
        }
    }
    if end > start && content[end - 1] == NEWLINE {
        if end - start >= 2 && content[end - 2] == CARRIAGE_RETURN {
            assert(content@.subrange(start as int, end - 2) =~= line.take(line.len() - 2));
            end - 2
        } else {
            assert(content@.subrange(start as int, end - 1) =~= line.take(line.len() - 1));
            end - 1
        }
    } else {
        end
    }
}

} // verus!
