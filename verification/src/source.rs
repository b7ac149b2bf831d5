//! Inputs: what a file-name token stands for, and what opening and reading
//! an input has given.

use vstd::prelude::*;

verus! {

/// Where the bytes of an input come from.
#[derive(Clone, Copy, Debug, PartialEq, Eq)]
pub enum InputKind {
    /// The standard input of the process.
    StandardInput,
    /// The file that the token names.
    File,
}

/// The token `-` is reserved: it stands for the standard input.
pub open spec fn names_standard_input(token: Seq<char>) -> bool {
    token == seq!['-']
}

/// Says where the bytes of the input `token` come from.
pub fn resolve(token: &str) -> (kind: InputKind)
    ensures
        kind == (if names_standard_input(token@) {
            InputKind::StandardInput
        } else {
            InputKind::File
        }),
{
    if token.unicode_len() == 1 && token.get_char(0) == '-' {
        assert(token@ =~= seq!['-']);
        InputKind::StandardInput
    } else {
        InputKind::File
    }
}

/// What opening and reading one input has given.
#[derive(Clone, Debug, PartialEq, Eq)]
pub enum Fetched {
    /// The input could not be opened.
    Unopened {
        /// Why not.
        cause: String,
    },
    /// The input was opened and read.
    Opened {
        /// The bytes that were read, in order.
        content: Vec<u8>,
        /// Why the read that came next failed, if one did.
        failure: Option<String>,
    },
}

/// A `Fetched` as plain values.
pub enum FetchedView {
    /// The input could not be opened, for this cause.
    Unopened { cause: Seq<char> },
    /// The input gave these bytes, and then failed for this cause, if it did.
    Opened { content: Seq<u8>, failure: Option<Seq<char>> },
}

impl View for Fetched {
    type V = FetchedView;

    open spec fn view(&self) -> FetchedView {
        match self {
            Fetched::Unopened { cause } => FetchedView::Unopened { cause: cause@ },
            Fetched::Opened { content, failure } => FetchedView::Opened {
                content: content@,
                failure: match failure {
                    Some(cause) => Some(cause@),
                    None => None,
                },
            },
        }
    }
}

/// The views of `sources`, in order.
pub open spec fn views(sources: Seq<Fetched>) -> Seq<FetchedView> {
    Seq::new(sources.len(), |i: int| sources[i]@)
}

/// The texts of `names`, in order.
pub open spec fn texts(names: Seq<String>) -> Seq<Seq<char>> {
    Seq::new(names.len(), |i: int| names[i]@)
}

/// The inputs of a run: those that were named, or the standard input
/// where none was.
pub open spec fn default_files(files: Seq<Seq<char>>) -> Seq<Seq<char>> {
    if files.len() == 0 {
        seq![seq!['-']]
    } else {
        files
    }
}

/// Gives the inputs of a run for the names that were given.
pub fn or_standard_input(files: Vec<String>) -> (inputs: Vec<String>)
    ensures
        texts(inputs@) == default_files(texts(files@)),
        inputs@.len() > 0,
{
    let ghost given = texts(files@);
    let mut inputs = files;
    if inputs.len() == 0 {
        inputs.push(String::from_str("-"));
        proof {
            reveal_strlit("-");
            assert(inputs@[0]@ =~= seq!['-']);
        }
    }
    assert(texts(inputs@) =~= default_files(given));
    inputs
}

} // verus!
