//! The truncating tool: writes the first lines, or the first bytes, of each
//! of its inputs.

use vstd::prelude::*;
use vstd::utf8::encode_utf8;
use crate::error::{ConfigError, ConfigErrorView};
use crate::orchestrate::{orchestrate, run_stderr, run_stdout, Engine, Report};
use crate::parse::{parse_unsigned, parse_usize};
use crate::source::{default_files, or_standard_input, texts, views, Fetched};
use crate::truncate::TruncateMode;

verus! {

/// The number of lines that a run keeps where none is asked for.
pub const DEFAULT_LINES: usize = 10;

/// The options of a run: the inputs in order, and the limit in lines, or
/// in bytes where one is set.
#[derive(Debug)]
pub struct Config {
    files: Vec<String>,
    lines: usize,
    bytes: Option<usize>,
}

/// A `Config` as plain values.
pub struct ConfigView {
    /// The names of the inputs, in order.
    pub files: Seq<Seq<char>>,
    /// The limit in lines.
    pub lines: usize,
    /// The limit in bytes, which takes the place of the limit in lines.
    pub bytes: Option<usize>,
}

impl ConfigView {
    /// There is an input, and every limit is positive.
    pub open spec fn valid(self) -> bool {
        &&& self.files.len() > 0
        &&& self.lines > 0
        &&& self.bytes matches Some(limit) ==> limit > 0
    }

    /// The engine that a run with these options applies to each input.
    pub open spec fn engine(self) -> Engine {
        match self.bytes {
            Some(limit) => Engine::Truncate(TruncateMode::Bytes(limit)),
            None => Engine::Truncate(TruncateMode::Lines(self.lines)),
        }
    }
}

impl View for Config {
    type V = ConfigView;

    closed spec fn view(&self) -> ConfigView {
        ConfigView { files: texts(self.files@), lines: self.lines, bytes: self.bytes }
    }
}

impl Config {
    #[verifier::type_invariant]
    spec fn well_formed(self) -> bool {
        self@.valid()
    }

    /// The names of the inputs, in order.
    pub fn files(&self) -> (files: &Vec<String>)
        ensures
            texts(files@) == self@.files,
            self@.valid(),
    {
        proof {
            use_type_invariant(self);
        }
        &self.files
    }

    /// The limit in lines.
    pub fn lines(&self) -> (lines: usize)
        ensures
            lines == self@.lines,
            lines > 0,
    {
        proof {
            use_type_invariant(self);
        }
        self.lines
    }

    /// The limit in bytes, where one is set.
    pub fn bytes(&self) -> (bytes: Option<usize>)
        ensures
            bytes == self@.bytes,
            bytes matches Some(limit) ==> limit > 0,
    {
        proof {
            use_type_invariant(self);
        }
        self.bytes
    }

    /// The engine that a run with these options applies to each input.
    pub fn engine(&self) -> (engine: Engine)
        ensures
            engine == self@.engine(),
    {
        match self.bytes {
            Some(limit) => Engine::Truncate(TruncateMode::Bytes(limit)),
            None => Engine::Truncate(TruncateMode::Lines(self.lines)),
        }
    }
}

/// What the value `val` of the option `option` is read as: a positive
/// number of a machine word, or the error that says why it is none.
pub open spec fn positive_int(val: Seq<char>, option: Seq<char>) -> Result<
    usize,
    ConfigErrorView,
> {
    match parse_unsigned(encode_utf8(val), usize::MAX as nat) {
        Ok(value) => if value > 0 {
            Ok(value as usize)
        } else {
            Err(ConfigErrorView::NotPositive { value: val })
        },
        Err(failure) => Err(ConfigErrorView::Malformed { value: val, option, failure }),
    }
}

/// Reads the value `val` of the option that `line_or_byte` names as a
/// positive number.
pub fn parse_positive_int(val: &str, line_or_byte: &str) -> (parsed: Result<usize, ConfigError>)
    ensures
        match positive_int(val@, line_or_byte@) {
            Ok(value) => parsed == Ok::<usize, ConfigError>(value) && value > 0,
            Err(error) => parsed is Err && parsed->Err_0@ == error,
        },
{
    match parse_usize(val.as_bytes()) {
        Ok(value) => {
            if value > 0 {
                Ok(value)
            } else {
                Err(ConfigError::NotPositive { value: String::from_str(val) })
            }
        },
        Err(failure) => Err(
            ConfigError::Malformed {
                value: String::from_str(val),
                option: String::from_str(line_or_byte),
                failure,
            },
        ),
    }
}

/// The text of an option value that may be absent.
pub open spec fn text_of(value: Option<&str>) -> Option<Seq<char>> {
    match value {
        Some(text) => Some(text@),
        None => None,
    }
}

/// What the option values make: the options of a run, or a message that
/// says which value is wrong. The limit in lines is looked at first, and
/// is `DEFAULT_LINES` where it is absent.
pub open spec fn parsed_args(
    files: Seq<Seq<char>>,
    lines: Option<Seq<char>>,
    bytes: Option<Seq<char>>,
) -> Result<ConfigView, Seq<char>> {
    let line_limit = match lines {
        Some(text) => positive_int(text, "'--lines <LINES>'"@),
        None => Ok(DEFAULT_LINES),
    };
    let byte_limit = match bytes {
        Some(text) => match positive_int(text, "'--bytes <BYTES>'"@) {
            Ok(limit) => Ok(Some(limit)),
            Err(error) => Err(error),
        },
        None => Ok(None),
    };
    match line_limit {
        Err(error) => Err("error: "@ + error.message() + " bar"@),
        Ok(limit) => match byte_limit {
            Err(error) => Err(error.message()),
            Ok(bytes) => Ok(ConfigView { files: default_files(files), lines: limit, bytes }),
        },
    }
}

/// Makes the options of a run from the option values as they were given:
/// the names of the inputs, and the texts of the two limits.
pub fn get_args(files: Vec<String>, lines: Option<&str>, bytes: Option<&str>) -> (made: Result<
    Config,
    String,
>)
    ensures
        match parsed_args(texts(files@), text_of(lines), text_of(bytes)) {
            Ok(view) => made is Ok && made->Ok_0@ == view && view.valid(),
            Err(message) => made is Err && made->Err_0@ == message,
        },
{
    let line_limit = match lines {
        Some(text) => match parse_positive_int(text, "'--lines <LINES>'") {
            Ok(limit) => limit,
            Err(error) => {
                let mut message = String::from_str("error: ");
                message.append(error.to_string().as_str());
                message.append(" bar");
                assert(message@ =~= "error: "@ + error@.message() + " bar"@);
                return Err(message);
            },
        },
        None => DEFAULT_LINES,
    };
    let byte_limit = match bytes {
        Some(text) => match parse_positive_int(text, "'--bytes <BYTES>'") {
            Ok(limit) => Some(limit),
            Err(error) => {
                return Err(error.to_string());
            },
        },
        None => None,
    };
    Ok(Config { files: or_standard_input(files), lines: line_limit, bytes: byte_limit })
}

/// Runs the tool over its inputs, of which `sources` holds what opening
/// and reading each has given, in the order of the options.
pub fn run(config: Config, sources: &Vec<Fetched>) -> (report: Report)
    requires
        sources@.len() == config@.files.len(),
    ensures
        report.stdout@ == run_stdout(config@.engine(), config@.files, views(sources@)),
        report.stderr@ == run_stderr(config@.engine(), config@.files, views(sources@)),
{
    let engine = config.engine();
    orchestrate(&engine, &config.files, sources)
}

} // verus!
