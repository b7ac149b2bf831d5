//! The orchestrator: takes the inputs of a run in order, gives each that was
//! opened to the engine, and turns each that failed into one diagnostic
//! line, after which the run goes on.

use vstd::prelude::*;
use vstd::seq_lib::lemma_flatten_concat;
use vstd::utf8::encode_utf8;
use crate::ascii::{append, COLON, EQUALS, GREATER_THAN, LESS_THAN, NEWLINE, SPACE};
use crate::lines::raw_lines;
use crate::number::{number_lines, numbered, NumberMode};
use crate::source::{texts, views, Fetched, FetchedView};
use crate::truncate::{
    lemma_byte_window, lossy_utf8, measure_lines, truncate, truncated, TruncateMode,
};

verus! {

/// The transformation that a run applies to each input.
#[derive(Clone, Copy, Debug, PartialEq, Eq)]
pub enum Engine {
    /// Write every line, numbered as the mode says.
    Number(NumberMode),
    /// Write the beginning, bounded as the mode says.
    Truncate(TruncateMode),
}

/// How much of an input an engine asks for.
#[derive(Clone, Copy, Debug, PartialEq, Eq)]
pub enum ReadPlan {
    /// Line after line, to the end.
    ToEnd,
    /// Line after line, this many at most.
    Lines(usize),
    /// One read of this many bytes at most.
    Bytes(usize),
}

impl ReadPlan {
    /// Whether one more line is to be read after `lines_read` lines: always
    /// on the way to the end, below the limit where there is one, and never
    /// where the plan is one read of bytes.
    pub open spec fn takes_line(self, lines_read: usize) -> bool {
        match self {
            ReadPlan::ToEnd => true,
            ReadPlan::Lines(limit) => lines_read < limit,
            ReadPlan::Bytes(_) => false,
        }
    }

    /// Says whether one more line is to be read after `lines_read` lines.
    pub fn allows_line(&self, lines_read: usize) -> (more: bool)
        ensures
            more == self.takes_line(lines_read),
    {
        match self {
            ReadPlan::ToEnd => true,
            ReadPlan::Lines(limit) => lines_read < *limit,
            ReadPlan::Bytes(_) => false,
        }
    }
}

/// What a run, or one input of a run, has written.
#[derive(Clone, Debug, PartialEq, Eq)]
pub struct Report {
    /// The bytes for the standard output.
    pub stdout: Vec<u8>,
    /// The bytes for the diagnostic channel.
    pub stderr: Vec<u8>,
}

impl Engine {
    /// What the engine writes for an input that holds `content`.
    pub open spec fn output(self, content: Seq<u8>) -> Seq<u8> {
        match self {
            Engine::Number(mode) => numbered(content, mode),
            Engine::Truncate(mode) => truncated(content, mode),
        }
    }

    /// Whether the engine, having taken `content`, asks its input for more,
    /// so that a read failure behind `content` reaches it.
    pub open spec fn reads_on(self, content: Seq<u8>) -> bool {
        match self {
            Engine::Number(_) => true,
            Engine::Truncate(TruncateMode::Lines(limit)) => raw_lines(content).len() < limit,
            Engine::Truncate(TruncateMode::Bytes(limit)) => limit > 0 && content.len() == 0,
        }
    }

    /// How much of an input the engine asks for.
    pub open spec fn plan(self) -> ReadPlan {
        match self {
            Engine::Number(_) => ReadPlan::ToEnd,
            Engine::Truncate(TruncateMode::Lines(limit)) => ReadPlan::Lines(limit),
            Engine::Truncate(TruncateMode::Bytes(limit)) => ReadPlan::Bytes(limit),
        }
    }

    /// Says how much of an input is to be read for this engine.
    pub fn read_plan(&self) -> (plan: ReadPlan)
        ensures
            plan == self.plan(),
    {
        match self {
            Engine::Number(_) => ReadPlan::ToEnd,
            Engine::Truncate(TruncateMode::Lines(limit)) => ReadPlan::Lines(*limit),
            Engine::Truncate(TruncateMode::Bytes(limit)) => ReadPlan::Bytes(*limit),
        }
    }

    /// Writes what the engine makes of `content`.
    pub fn transform(&self, content: &[u8]) -> (out: Vec<u8>)
        ensures
            out@ == self.output(content@),
    {
        match self {
            Engine::Number(mode) => number_lines(content, *mode),
            Engine::Truncate(mode) => truncate(content, *mode),
        }
    }

    /// Says whether the engine asks for more than `content`.
    pub fn wants_more(&self, content: &[u8]) -> (more: bool)
        ensures
            more == self.reads_on(content@),
    {
        match self {
            Engine::Number(_) => true,
            Engine::Truncate(TruncateMode::Lines(limit)) => {
                let found = measure_lines(content, *limit);
                found.0 < *limit
            },
            Engine::Truncate(TruncateMode::Bytes(limit)) => *limit > 0 && content.len() == 0,
        }
    }
}

/// The header of the input `name` at place `index`, counted from 0: the
/// name between two arrows on a line of its own, behind an empty line
/// unless the input is the first.
pub open spec fn header(name: Seq<char>, index: nat) -> Seq<u8> {
    (if index > 0 {
        seq![NEWLINE]
    } else {
        Seq::<u8>::empty()
    }) + seq![EQUALS, EQUALS, GREATER_THAN, SPACE] + encode_utf8(name) + seq![
        SPACE,
        LESS_THAN,
        EQUALS,
        EQUALS,
        NEWLINE,
    ]
}

/// The diagnostic line for the input `name` that failed for `cause`.
pub open spec fn diagnostic(name: Seq<char>, cause: Seq<char>) -> Seq<u8> {
    encode_utf8(name) + seq![COLON, SPACE] + encode_utf8(cause) + seq![NEWLINE]
}

/// Whether an input of a run of `total` inputs gets a header: it does when
/// it was opened and is not alone.
pub open spec fn shows_header(total: nat, fetched: FetchedView) -> bool {
    total > 1 && fetched is Opened
}

/// What goes to the standard output for one input: its header, where it
/// gets one, and what the engine writes for it. An input that was not
/// opened gives nothing.
pub open spec fn file_stdout(
    engine: Engine,
    name: Seq<char>,
    index: nat,
    total: nat,
    fetched: FetchedView,
) -> Seq<u8> {
    match fetched {
        FetchedView::Unopened { .. } => Seq::<u8>::empty(),
        FetchedView::Opened { content, .. } => (if shows_header(total, fetched) {
            header(name, index)
        } else {
            Seq::<u8>::empty()
        }) + engine.output(content),
    }
}

/// What goes to the diagnostic channel for one input: one line where it
/// was not opened, one line where a read failed that the engine asked for,
/// and nothing else.
pub open spec fn file_stderr(engine: Engine, name: Seq<char>, fetched: FetchedView) -> Seq<u8> {
    match fetched {
        FetchedView::Unopened { cause } => diagnostic(name, cause),
        FetchedView::Opened { content, failure } => match failure {
            Some(cause) => if engine.reads_on(content) {
                diagnostic(name, cause)
            } else {
                Seq::<u8>::empty()
            },
            None => Seq::<u8>::empty(),
        },
    }
}

/// What each input of a run gives to the standard output, in order.
pub open spec fn stdout_parts(
    engine: Engine,
    names: Seq<Seq<char>>,
    sources: Seq<FetchedView>,
) -> Seq<Seq<u8>> {
    Seq::new(
        names.len(),
        |i: int| file_stdout(engine, names[i], i as nat, names.len(), sources[i]),
    )
}

/// What each input of a run gives to the diagnostic channel, in order.
pub open spec fn stderr_parts(
    engine: Engine,
    names: Seq<Seq<char>>,
    sources: Seq<FetchedView>,
) -> Seq<Seq<u8>> {
    Seq::new(names.len(), |i: int| file_stderr(engine, names[i], sources[i]))
}

/// What a run writes to the standard output.
pub open spec fn run_stdout(
    engine: Engine,
    names: Seq<Seq<char>>,
    sources: Seq<FetchedView>,
) -> Seq<u8> {
    stdout_parts(engine, names, sources).flatten()
}

/// What a run writes to the diagnostic channel.
pub open spec fn run_stderr(
    engine: Engine,
    names: Seq<Seq<char>>,
    sources: Seq<FetchedView>,
) -> Seq<u8> {
    stderr_parts(engine, names, sources).flatten()
}

/// How many of `sources` get a header in a run of `total` inputs.
pub open spec fn header_count(total: nat, sources: Seq<FetchedView>) -> nat
    decreases sources.len(),
{
    if sources.len() == 0 {
        0
    } else {
        header_count(total, sources.drop_last()) + if shows_header(total, sources.last()) {
            1nat
        } else {
            0nat
        }
    }
}

/// How many of `sources` were opened.
pub open spec fn opened_count(sources: Seq<FetchedView>) -> nat
    decreases sources.len(),
{
    if sources.len() == 0 {
        0
    } else {
        opened_count(sources.drop_last()) + if sources.last() is Opened {
            1nat
        } else {
            0nat
        }
    }
}

/// In a run of more than one input every input that was opened gets a
/// header, and no other; in a run of one input none is written.
pub proof fn lemma_one_header_per_opened_input(total: nat, sources: Seq<FetchedView>)
    ensures
        total > 1 ==> header_count(total, sources) == opened_count(sources),
        total <= 1 ==> header_count(total, sources) == 0,
    decreases sources.len(),
{
    if sources.len() > 0 {
        lemma_one_header_per_opened_input(total, sources.drop_last());
    }
}

/// A run of one input that was opened writes what the engine writes for
/// it, with nothing in front.
pub proof fn lemma_single_input_has_no_header(
    engine: Engine,
    names: Seq<Seq<char>>,
    sources: Seq<FetchedView>,
)
    requires
        names.len() == 1,
        sources.len() == 1,
        sources[0] is Opened,
    ensures
        run_stdout(engine, names, sources) == engine.output(sources[0]->content),
{
    let parts = stdout_parts(engine, names, sources);
    parts.lemma_flatten_one_element();
    assert(parts.first() =~= engine.output(sources[0]->content));
}

/// What a run writes is what the inputs before any place `i` give, then
/// what input `i` gives, then what the inputs behind it give: no input has
/// a part in what another gives.
pub proof fn lemma_run_splits(
    engine: Engine,
    names: Seq<Seq<char>>,
    sources: Seq<FetchedView>,
    i: int,
)
    requires
        0 <= i < names.len(),
    ensures
        run_stdout(engine, names, sources) == stdout_parts(engine, names, sources).take(
            i,
        ).flatten() + file_stdout(engine, names[i], i as nat, names.len(), sources[i])
            + stdout_parts(engine, names, sources).skip(i + 1).flatten(),
        run_stderr(engine, names, sources) == stderr_parts(engine, names, sources).take(
            i,
        ).flatten() + file_stderr(engine, names[i], sources[i]) + stderr_parts(
            engine,
            names,
            sources,
        ).skip(i + 1).flatten(),
{
    let out = stdout_parts(engine, names, sources);
    assert(out =~= out.take(i) + seq![out[i]] + out.skip(i + 1));
    lemma_flatten_concat(out.take(i) + seq![out[i]], out.skip(i + 1));
    lemma_flatten_concat(out.take(i), seq![out[i]]);
    seq![out[i]].lemma_flatten_one_element();
    let err = stderr_parts(engine, names, sources);
    assert(err =~= err.take(i) + seq![err[i]] + err.skip(i + 1));
    lemma_flatten_concat(err.take(i) + seq![err[i]], err.skip(i + 1));
    lemma_flatten_concat(err.take(i), seq![err[i]]);
    seq![err[i]].lemma_flatten_one_element();
}

/// An input that could not be opened gives one diagnostic line and nothing
/// to the standard output, and the inputs around it are written as they
/// would be without the failure.
pub proof fn lemma_unopened_input_is_skipped(
    engine: Engine,
    names: Seq<Seq<char>>,
    sources: Seq<FetchedView>,
    i: int,
)
    requires
        0 <= i < names.len(),
        sources[i] is Unopened,
    ensures
        run_stdout(engine, names, sources) == stdout_parts(engine, names, sources).take(
            i,
        ).flatten() + stdout_parts(engine, names, sources).skip(i + 1).flatten(),
        run_stderr(engine, names, sources) == stderr_parts(engine, names, sources).take(
            i,
        ).flatten() + diagnostic(names[i], sources[i]->Unopened_cause) + stderr_parts(
            engine,
            names,
            sources,
        ).skip(i + 1).flatten(),
{
    lemma_run_splits(engine, names, sources, i);
    assert(stdout_parts(engine, names, sources).take(i).flatten() + Seq::<u8>::empty()
        =~= stdout_parts(engine, names, sources).take(i).flatten());
}

/// In byte mode an input that holds no more bytes than the limit, and was
/// read without a failure, is written whole, decoded, and gives no
/// diagnostic.
pub proof fn lemma_short_input_in_byte_mode(name: Seq<char>, content: Seq<u8>, limit: usize)
    requires
        content.len() <= limit,
    ensures
        Engine::Truncate(TruncateMode::Bytes(limit)).output(content) == encode_utf8(
            lossy_utf8(content),
        ),
        file_stderr(
            Engine::Truncate(TruncateMode::Bytes(limit)),
            name,
            FetchedView::Opened { content, failure: None },
        ) == Seq::<u8>::empty(),
{
    lemma_byte_window(content, limit as nat);
}

/// Appends the header of the input `name` at place `index` to `out`.
pub fn push_header(out: &mut Vec<u8>, name: &str, index: usize)
    ensures
        final(out)@ == old(out)@ + header(name@, index as nat),
{
    let ghost before = out@;
    if index > 0 {
        out.push(NEWLINE);
    }
    out.push(EQUALS);
    out.push(EQUALS);
    out.push(GREATER_THAN);
    out.push(SPACE);
    append(out, name.as_bytes());
    out.push(SPACE);
    out.push(LESS_THAN);
    out.push(EQUALS);
    out.push(EQUALS);
    out.push(NEWLINE);
    assert(out@ =~= before + header(name@, index as nat));
}

/// Appends the diagnostic line for the input `name` and `cause` to `out`.
pub fn push_diagnostic(out: &mut Vec<u8>, name: &str, cause: &str)
    ensures
        final(out)@ == old(out)@ + diagnostic(name@, cause@),
{
    let ghost before = out@;
    append(out, name.as_bytes());
    out.push(COLON);
    out.push(SPACE);
    append(out, cause.as_bytes());
    out.push(NEWLINE);
    assert(out@ =~= before + diagnostic(name@, cause@));
}

/// Writes what the input `name`, at place `index` of `total`, gives.
pub fn process_file(
    engine: &Engine,
    name: &str,
    index: usize,
    total: usize,
    fetched: &Fetched,
) -> (report: Report)
    ensures
        report.stdout@ == file_stdout(*engine, name@, index as nat, total as nat, fetched@),
        report.stderr@ == file_stderr(*engine, name@, fetched@),
{
    let mut stdout: Vec<u8> = Vec::new();
    let mut stderr: Vec<u8> = Vec::new();
    match fetched {
        Fetched::Unopened { cause } => {
            push_diagnostic(&mut stderr, name, cause.as_str());
        },
        Fetched::Opened { content, failure } => {
            if total > 1 {
                push_header(&mut stdout, name, index);
            }
            let body = engine.transform(content.as_slice());
            append(&mut stdout, body.as_slice());
            match failure {
                Some(cause) => {
                    if engine.wants_more(content.as_slice()) {
                        push_diagnostic(&mut stderr, name, cause.as_str());
                    }
                },
                None => {},
            }
        },
    }
    assert(stdout@ =~= file_stdout(*engine, name@, index as nat, total as nat, fetched@));
    assert(stderr@ =~= file_stderr(*engine, name@, fetched@));
    Report { stdout, stderr }
}

/// Runs `engine` over the inputs `files`, of which `sources` holds what
/// opening and reading each has given, in the same order.
pub fn orchestrate(engine: &Engine, files: &Vec<String>, sources: &Vec<Fetched>) -> (report:
    Report)
    requires
        files@.len() == sources@.len(),
    ensures
        report.stdout@ == run_stdout(*engine, texts(files@), views(sources@)),
        report.stderr@ == run_stderr(*engine, texts(files@), views(sources@)),
{
    let mut stdout: Vec<u8> = Vec::new();
    let mut stderr: Vec<u8> = Vec::new();
    let total = files.len();
    let ghost out_parts = stdout_parts(*engine, texts(files@), views(sources@));
    let ghost err_parts = stderr_parts(*engine, texts(files@), views(sources@));
    let mut i: usize = 0;
    proof {
        assert(out_parts.take(0).flatten() =~= Seq::<u8>::empty());
        assert(err_parts.take(0).flatten() =~= Seq::<u8>::empty());
    }
    while i < total
        invariant
            i <= total,
            total == files@.len(),
            total == sources@.len(),
            out_parts == stdout_parts(*engine, texts(files@), views(sources@)),
            err_parts == stderr_parts(*engine, texts(files@), views(sources@)),
            stdout@ == out_parts.take(i as int).flatten(),
            stderr@ == err_parts.take(i as int).flatten(),
        decreases total - i,
    {
        let part = process_file(engine, files[i].as_str(), i, total, &sources[i]);
        append(&mut stdout, part.stdout.as_slice());
        append(&mut stderr, part.stderr.as_slice());
        proof {
            assert(out_parts.take(i + 1) =~= out_parts.take(i as int).push(out_parts[i as int]));
            assert(err_parts.take(i + 1) =~= err_parts.take(i as int).push(err_parts[i as int]));
            out_parts.take(i as int).lemma_flatten_push(out_parts[i as int]);
            err_parts.take(i as int).lemma_flatten_push(err_parts[i as int]);
        }
        i += 1;
    }
    proof {
        assert(out_parts.take(i as int) =~= out_parts);
        assert(err_parts.take(i as int) =~= err_parts);
    }
    Report { stdout, stderr }
}

} // verus!
