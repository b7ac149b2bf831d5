//! The concatenating tool: writes the lines of each of its inputs, with
//! line numbers where they are asked for.

use vstd::prelude::*;
use crate::error::ConfigError;
use crate::number::NumberMode;
use crate::orchestrate::{orchestrate, run_stderr, run_stdout, Engine, Report};
use crate::source::{default_files, or_standard_input, texts, views, Fetched};

verus! {

/// The options of a run: the inputs in order, and which lines get a
/// number.
#[derive(Debug)]
pub struct Config {
    files: Vec<String>,
    number_lines: bool,
    number_nonblank_lines: bool,
}

/// A `Config` as plain values.
pub struct ConfigView {
    /// The names of the inputs, in order.
    pub files: Seq<Seq<char>>,
    /// Whether every line gets a number.
    pub number_lines: bool,
    /// Whether every line that is not empty gets a number.
    pub number_nonblank_lines: bool,
}

impl ConfigView {
    /// There is an input, and at most one way of numbering is asked for.
    pub open spec fn valid(self) -> bool {
        &&& self.files.len() > 0
        &&& !(self.number_lines && self.number_nonblank_lines)
    }

    /// Which lines get a number.
    pub open spec fn mode(self) -> NumberMode {
        if self.number_lines {
            NumberMode::All
        } else if self.number_nonblank_lines {
            NumberMode::NonBlank
        } else {
            NumberMode::Plain
        }
    }

    /// The engine that a run with these options applies to each input.
    pub open spec fn engine(self) -> Engine {
        Engine::Number(self.mode())
    }
}

impl View for Config {
    type V = ConfigView;

    closed spec fn view(&self) -> ConfigView {
        ConfigView {
            files: texts(self.files@),
            number_lines: self.number_lines,
            number_nonblank_lines: self.number_nonblank_lines,
        }
    }
}

impl Config {
    #[verifier::type_invariant]
    spec fn well_formed(self) -> bool {
        self@.valid()
    }

    /// The names of the inputs, in order.
    pub fn files(&self) -> (files: &Vec<String>)
        ensures
            texts(files@) == self@.files,
            self@.valid(),
    {
        proof {
            use_type_invariant(self);
        }
        &self.files
    }

    /// Whether every line gets a number.
    pub fn number_lines(&self) -> (set: bool)
        ensures
            set == self@.number_lines,
    {
        self.number_lines
    }

    /// Whether every line that is not empty gets a number.
    pub fn number_nonblank_lines(&self) -> (set: bool)
        ensures
            set == self@.number_nonblank_lines,
    {
        self.number_nonblank_lines
    }

    /// Which lines get a number.
    pub fn mode(&self) -> (mode: NumberMode)
        ensures
            mode == self@.mode(),
    {
        if self.number_lines {
            NumberMode::All
        } else if self.number_nonblank_lines {
            NumberMode::NonBlank
        } else {
            NumberMode::Plain
        }
    }

    /// The engine that a run with these options applies to each input.
    pub fn engine(&self) -> (engine: Engine)
        ensures
            engine == self@.engine(),
    {
        Engine::Number(self.mode())
    }
}

/// Makes the options of a run from the option values as they were given:
/// the names of the inputs, and the two switches. The switches exclude
/// each other.
pub fn get_args(files: Vec<String>, number_lines: bool, number_nonblank_lines: bool) -> (made:
    Result<Config, ConfigError>)
    ensures
        number_lines && number_nonblank_lines ==> made == Err::<Config, ConfigError>(
            ConfigError::NumberingConflict,
        ),
        !(number_lines && number_nonblank_lines) ==> made is Ok && made->Ok_0@ == (ConfigView {
            files: default_files(texts(files@)),
            number_lines,
            number_nonblank_lines,
        }) && made->Ok_0@.valid(),
{
    if number_lines && number_nonblank_lines {
        Err(ConfigError::NumberingConflict)
    } else {
        Ok(Config { files: or_standard_input(files), number_lines, number_nonblank_lines })
    }
}

/// Runs the tool over its inputs, of which `sources` holds what opening
/// and reading each has given, in the order of the options.
pub fn run(config: Config, sources: &Vec<Fetched>) -> (report: Report)
    requires
        sources@.len() == config@.files.len(),
    ensures
        report.stdout@ == run_stdout(config@.engine(), config@.files, views(sources@)),
        report.stderr@ == run_stderr(config@.engine(), config@.files, views(sources@)),
{
    let engine = config.engine();
    orchestrate(&engine, &config.files, sources)
}

} // verus!
