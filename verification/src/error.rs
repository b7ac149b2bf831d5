//! What can be wrong with the options of a run.

use vstd::prelude::*;
use crate::parse::ParseFailure;

verus! {

/// An option value that no run can be made with.
#[derive(Clone, Debug, PartialEq, Eq)]
pub enum ConfigError {
    /// The value of an option is not a number that fits.
    Malformed {
        /// The value as it was given.
        value: String,
        /// The option that it was given for.
        option: String,
        /// What is wrong with it.
        failure: ParseFailure,
    },
    /// The value of an option is zero, where a limit must be positive.
    NotPositive {
        /// The value as it was given.
        value: String,
    },
    /// Both ways of numbering were asked for at once.
    NumberingConflict,
}

/// A `ConfigError` as plain values.
pub enum ConfigErrorView {
    /// The value of an option is not a number that fits.
    Malformed { value: Seq<char>, option: Seq<char>, failure: ParseFailure },
    /// The value of an option is zero.
    NotPositive { value: Seq<char> },
    /// Both ways of numbering were asked for at once.
    NumberingConflict,
}

impl ConfigErrorView {
    /// The error in words.
    pub open spec fn message(self) -> Seq<char> {
        match self {
            ConfigErrorView::Malformed { value, option, failure } => "invalid value '"@ + value
                + "' for "@ + option + ": "@ + failure.reason(),
            ConfigErrorView::NotPositive { value } => "invalid value '"@ + value
                + "' (must be > 0)"@,
            ConfigErrorView::NumberingConflict =>
                "the argument '--number-nonblank' cannot be used with '--number'"@,
        }
    }
}

impl View for ConfigError {
    type V = ConfigErrorView;

    open spec fn view(&self) -> ConfigErrorView {
        match self {
            ConfigError::Malformed { value, option, failure } => ConfigErrorView::Malformed {
                value: value@,
                option: option@,
                failure: *failure,
            },
            ConfigError::NotPositive { value } => ConfigErrorView::NotPositive { value: value@ },
            ConfigError::NumberingConflict => ConfigErrorView::NumberingConflict,
        }
    }
}

impl ConfigError {
    /// Gives the error in words.
    pub fn to_string(&self) -> (text: String)
        ensures
            text@ == self@.message(),
    {
        match self {
            ConfigError::Malformed { value, option, failure } => {
                let mut text = String::from_str("invalid value '");
                text.append(value.as_str());
                text.append("' for ");
                text.append(option.as_str());
                text.append(": ");
                text.append(failure.describe());
                assert(text@ =~= self@.message());
                text
            },
            ConfigError::NotPositive { value } => {
                let mut text = String::from_str("invalid value '");
                text.append(value.as_str());
                text.append("' (must be > 0)");
                assert(text@ =~= self@.message());
                text
            },
            ConfigError::NumberingConflict => String::from_str(
                "the argument '--number-nonblank' cannot be used with '--number'",
            ),
        }
    }
}

} // verus!
