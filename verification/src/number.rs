//! The numbering engine: writes the lines of an input one by one, each on a
//! line of its own, with a line number in front where the mode asks for one.

use vstd::prelude::*;
use vstd::slice::slice_subrange;
use crate::ascii::{append, NEWLINE, TAB};
use crate::decimal::{lemma_digits_are_digits, number_field, push_number};
use crate::lines::{
    first_line_len, has_no_newline, is_open_line, is_terminated_line, lemma_first_line,
    lemma_lines_of_flattened, lemma_raw_lines_are_lines, line_end, raw_lines, strip_terminator,
    text_end, text_lines,
};

verus! {

/// Which lines get a number.
#[derive(Clone, Copy, Debug, PartialEq, Eq)]
pub enum NumberMode {
    /// No line gets one: the lines are written as they are.
    Plain,
    /// Every line gets its position in the input, counted from 1.
    All,
    /// Every line that is not empty gets its position among the lines that
    /// are not empty, counted from 1; an empty line is written empty.
    NonBlank,
}

/// How many of `lines` are not empty.
pub open spec fn nonblank_count(lines: Seq<Seq<u8>>) -> nat
    decreases lines.len(),
{
    if lines.len() == 0 {
        0
    } else {
        nonblank_count(lines.drop_last()) + if lines.last().len() > 0 {
            1nat
        } else {
            0nat
        }
    }
}

/// The number that line `k` of `lines` is written with, if it gets one.
pub open spec fn assigned_number(lines: Seq<Seq<u8>>, mode: NumberMode, k: int) -> Option<nat> {
    match mode {
        NumberMode::Plain => None,
        NumberMode::All => Some((k + 1) as nat),
        NumberMode::NonBlank => if lines[k].len() == 0 {
            None
        } else {
            Some(nonblank_count(lines.take(k + 1)))
        },
    }
}

/// What is written for line `k` of `lines`: its number field and a tab where
/// it has a number, the line, and a line feed.
pub open spec fn rendered_line(lines: Seq<Seq<u8>>, mode: NumberMode, k: int) -> Seq<u8> {
    match assigned_number(lines, mode, k) {
        Some(n) => number_field(n) + seq![TAB] + lines[k] + seq![NEWLINE],
        None => lines[k] + seq![NEWLINE],
    }
}

/// What is written for each of `lines`.
pub open spec fn rendered_lines(lines: Seq<Seq<u8>>, mode: NumberMode) -> Seq<Seq<u8>> {
    Seq::new(lines.len(), |k: int| rendered_line(lines, mode, k))
}

/// What the engine writes for an input that holds `content`.
pub open spec fn numbered(content: Seq<u8>, mode: NumberMode) -> Seq<u8> {
    rendered_lines(text_lines(content), mode).flatten()
}

/// The text lines of a sequence that is not empty are the text of its
/// first line and the text lines of what follows it.
pub proof fn lemma_text_lines_step(s: Seq<u8>)
    ensures
        s.len() == 0 ==> text_lines(s) == Seq::<Seq<u8>>::empty(),
        s.len() > 0 ==> text_lines(s) == seq![
            strip_terminator(s.take(first_line_len(s) as int)),
        ] + text_lines(s.skip(first_line_len(s) as int)),
{
    if s.len() == 0 {
        assert(text_lines(s) =~= Seq::<Seq<u8>>::empty());
    } else {
        let k = first_line_len(s) as int;
        assert(raw_lines(s) =~= seq![s.take(k)] + raw_lines(s.skip(k)));
        assert(text_lines(s) =~= seq![strip_terminator(s.take(k))] + text_lines(s.skip(k)));
    }
}

/// One more line at the end changes nothing of what is written for the
/// lines before it.
pub proof fn lemma_rendered_push(lines: Seq<Seq<u8>>, line: Seq<u8>, mode: NumberMode)
    ensures
        rendered_lines(lines.push(line), mode) == rendered_lines(lines, mode).push(
            rendered_line(lines.push(line), mode, lines.len() as int),
        ),
{
    let longer = lines.push(line);
    assert forall|k: int| 0 <= k < lines.len() implies rendered_line(longer, mode, k)
        == rendered_line(lines, mode, k) by {
        assert(longer[k] == lines[k]);
        assert(longer.take(k + 1) =~= lines.take(k + 1));
    }
    assert(rendered_lines(longer, mode) =~= rendered_lines(lines, mode).push(
        rendered_line(longer, mode, lines.len() as int),
    ));
}

/// The text of a line holds no line feed.
pub proof fn lemma_text_has_no_newline(s: Seq<u8>, k: int)
    requires
        0 <= k < text_lines(s).len(),
    ensures
        has_no_newline(text_lines(s)[k]),
{
    lemma_raw_lines_are_lines(s);
    let line = raw_lines(s)[k];
    let text = strip_terminator(line);
    assert(is_terminated_line(line) || is_open_line(line));
    assert forall|i: int| 0 <= i < text.len() implies text[i] != NEWLINE by {
        if is_terminated_line(line) {
            assert(text[i] == line.drop_last()[i]);
        }
    }
}

/// A number field holds no line feed.
pub proof fn lemma_number_field_has_no_newline(n: nat)
    ensures
        has_no_newline(number_field(n)),
{
    lemma_digits_are_digits(n);
}

/// What is written for a line that holds no line feed is one terminated
/// line.
pub proof fn lemma_rendered_line_is_terminated(lines: Seq<Seq<u8>>, mode: NumberMode, k: int)
    requires
        0 <= k < lines.len(),
        has_no_newline(lines[k]),
    ensures
        is_terminated_line(rendered_line(lines, mode, k)),
{
    let written = rendered_line(lines, mode, k);
    match assigned_number(lines, mode, k) {
        Some(n) => {
            lemma_number_field_has_no_newline(n);
            let field = number_field(n);
            assert forall|i: int| 0 <= i < written.drop_last().len() implies written.drop_last()[i]
                != NEWLINE by {
                if i < field.len() {
                    assert(written.drop_last()[i] == field[i]);
                } else if i == field.len() {
                    assert(written.drop_last()[i] == TAB);
                } else {
                    assert(written.drop_last()[i] == lines[k][i - field.len() - 1]);
                }
            }
        },
        None => {
            assert(written.drop_last() =~= lines[k]);
        },
    }
}

/// The engine writes one line for each line of its input: divided into
/// lines, its output is what `rendered_lines` lists.
pub proof fn lemma_output_lines(content: Seq<u8>, mode: NumberMode)
    ensures
        raw_lines(numbered(content, mode)) == rendered_lines(text_lines(content), mode),
{
    let lines = text_lines(content);
    let written = rendered_lines(lines, mode);
    assert forall|k: int| 0 <= k < written.len() implies is_terminated_line(
        #[trigger] written[k],
    ) by {
        lemma_text_has_no_newline(content, k);
        lemma_rendered_line_is_terminated(lines, mode, k);
    }
    lemma_lines_of_flattened(written);
}

/// With every line numbered, line `k` of the output, counted from 0, is
/// the number `k + 1` in its field, a tab, line `k` of the input and a line
/// feed; and the output has as many lines as the input.
pub proof fn lemma_all_lines_numbered(content: Seq<u8>, k: int)
    requires
        0 <= k < text_lines(content).len(),
    ensures
        raw_lines(numbered(content, NumberMode::All)).len() == text_lines(content).len(),
        raw_lines(numbered(content, NumberMode::All))[k] == number_field((k + 1) as nat) + seq![
            TAB,
        ] + text_lines(content)[k] + seq![NEWLINE],
{
    lemma_output_lines(content, NumberMode::All);
}

/// With the lines that are not empty numbered, an empty line of the input
/// is an empty line of the output, and a line that is not empty is written
/// behind one more than the number of such lines before it.
pub proof fn lemma_nonblank_lines_numbered(content: Seq<u8>, k: int)
    requires
        0 <= k < text_lines(content).len(),
    ensures
        raw_lines(numbered(content, NumberMode::NonBlank)).len() == text_lines(content).len(),
        text_lines(content)[k].len() == 0 ==> raw_lines(numbered(content, NumberMode::NonBlank))[k]
            == seq![NEWLINE],
        text_lines(content)[k].len() > 0 ==> raw_lines(numbered(content, NumberMode::NonBlank))[k]
            == number_field(nonblank_count(text_lines(content).take(k)) + 1) + seq![TAB]
            + text_lines(content)[k] + seq![NEWLINE],
{
    lemma_output_lines(content, NumberMode::NonBlank);
    let lines = text_lines(content);
    if lines[k].len() == 0 {
        assert(rendered_line(lines, NumberMode::NonBlank, k) =~= seq![NEWLINE]);
    } else {
        lemma_nonblank_number(lines, k);
    }
}

/// The number of a line that is not empty is one more than the number of
/// such lines before it, however many empty lines lie among them.
pub proof fn lemma_nonblank_number(lines: Seq<Seq<u8>>, k: int)
    requires
        0 <= k < lines.len(),
        lines[k].len() > 0,
    ensures
        assigned_number(lines, NumberMode::NonBlank, k) == Some(
            nonblank_count(lines.take(k)) + 1,
        ),
{
    assert(lines.take(k + 1).drop_last() =~= lines.take(k));
    assert(lines.take(k + 1).last() == lines[k]);
}

/// Empty lines do not count: over a run of them the count stands still.
pub proof fn lemma_blank_run_counts_nothing(lines: Seq<Seq<u8>>, from: int, to: int)
    requires
        0 <= from <= to <= lines.len(),
        forall|m: int| from <= m < to ==> lines[m].len() == 0,
    ensures
        nonblank_count(lines.take(to)) == nonblank_count(lines.take(from)),
    decreases to - from,
{
    if from < to {
        lemma_blank_run_counts_nothing(lines, from, to - 1);
        assert(lines.take(to).drop_last() =~= lines.take(to - 1));
        assert(lines.take(to).last() == lines[to - 1]);
    }
}

/// The first line that is not empty gets the number 1.
pub proof fn lemma_first_nonblank_number(lines: Seq<Seq<u8>>, k: int)
    requires
        0 <= k < lines.len(),
        lines[k].len() > 0,
        forall|m: int| 0 <= m < k ==> lines[m].len() == 0,
    ensures
        assigned_number(lines, NumberMode::NonBlank, k) == Some(1nat),
{
    lemma_nonblank_number(lines, k);
    lemma_blank_run_counts_nothing(lines, 0, k);
    assert(lines.take(0) =~= Seq::<Seq<u8>>::empty());
}

/// From one line that is not empty to the next one the number goes up by
/// 1, whatever the number of empty lines between the two.
pub proof fn lemma_nonblank_numbers_count_up(lines: Seq<Seq<u8>>, i: int, j: int)
    requires
        0 <= i < j < lines.len(),
        lines[i].len() > 0,
        lines[j].len() > 0,
        forall|m: int| i < m < j ==> lines[m].len() == 0,
    ensures
        assigned_number(lines, NumberMode::NonBlank, i) is Some,
        assigned_number(lines, NumberMode::NonBlank, j) == Some(
            assigned_number(lines, NumberMode::NonBlank, i)->0 + 1,
        ),
{
    lemma_nonblank_number(lines, i);
    lemma_nonblank_number(lines, j);
    lemma_blank_run_counts_nothing(lines, i + 1, j);
    assert(lines.take(i + 1).drop_last() =~= lines.take(i));
    assert(lines.take(i + 1).last() == lines[i]);
}

/// Writes the lines of `content` one by one, each followed by a line feed,
/// with the numbers that `mode` asks for.
pub fn number_lines(content: &[u8], mode: NumberMode) -> (out: Vec<u8>)
    ensures
        out@ == numbered(content@, mode),
{
    let mut out: Vec<u8> = Vec::new();
    let mut pos: usize = 0;
    let mut seen: usize = 0;
    let mut printed: usize = 0;
    let ghost mut texts: Seq<Seq<u8>> = Seq::empty();
    proof {
        assert(content@.skip(0) =~= content@);
        assert(rendered_lines(texts, mode).flatten() =~= Seq::<u8>::empty());
    }
    while pos < content.len()
        invariant
            pos <= content@.len(),
            text_lines(content@) == texts + text_lines(content@.skip(pos as int)),
            texts.len() == seen,
            seen <= pos,
            mode == NumberMode::NonBlank ==> printed == nonblank_count(texts),
            printed <= seen,
            out@ == rendered_lines(texts, mode).flatten(),
        decreases content@.len() - pos,
    {
        let end = line_end(content, pos);
        let stop = text_end(content, pos, end);
        let text = slice_subrange(content, pos, stop);
        let ghost here = content@.skip(pos as int);
        let ghost longer = texts.push(text@);
        proof {
            lemma_first_line(here);
            lemma_text_lines_step(here);
            assert(here.take(first_line_len(here) as int) =~= content@.subrange(
                pos as int,
                end as int,
            ));
            assert(here.skip(first_line_len(here) as int) =~= content@.skip(end as int));
            assert(text_lines(content@) =~= longer + text_lines(content@.skip(end as int)));
            lemma_rendered_push(texts, text@, mode);
            rendered_lines(texts, mode).lemma_flatten_push(
                rendered_line(longer, mode, texts.len() as int),
            );
            assert(longer.drop_last() =~= texts);
            assert(longer.take(texts.len() as int + 1) =~= longer);
        }
        seen += 1;
        match mode {
            NumberMode::Plain => {
                append(&mut out, text);
                out.push(NEWLINE);
            },
            NumberMode::All => {
                push_number(&mut out, seen);
                out.push(TAB);
                append(&mut out, text);
                out.push(NEWLINE);
            },
            NumberMode::NonBlank => {
                if stop > pos {
                    printed += 1;
                    push_number(&mut out, printed);
                    out.push(TAB);
                    append(&mut out, text);
                }
                out.push(NEWLINE);
            },
        }
        proof {
            assert(out@ =~= rendered_lines(texts, mode).flatten() + rendered_line(
                longer,
                mode,
                texts.len() as int,
            ));
            texts = longer;
        }
        pos = end;
    }
    proof {
        lemma_text_lines_step(content@.skip(pos as int));
        assert(text_lines(content@) =~= texts);
    }
    out
}

} // verus!
