//! Errors of an analysis.

use vstd::prelude::*;

verus! {

/// What can go wrong in an analysis.
#[derive(Debug, Clone, Copy, PartialEq, Eq)]
pub enum Error {
    /// A file of the project could not be read.
    WrongFile,
    /// A path does not lie below the project path.
    StripPrefix,
    /// The coverage report is not valid JSON.
    WrongJSONFile,
    /// A value of the coverage report has the wrong type.
    Conversion,
    /// Scores could not be computed.
    Metrics,
    /// The language of a source file is unknown.
    Language,
    /// A worker failed.
    Concurrent,
    /// An output path is of the wrong kind.
    OutputPath(&'static str),
    /// A lock is poisoned.
    Mutex,
    /// A worker could not hand on a job.
    Sender,
    /// The HTML report could not be written.
    Html,
}

impl Error {
    /// The message of the error.
    pub fn message(&self) -> (text: &'static str)
        ensures
            text@ == match *self {
                Error::WrongFile => "Error while reading Files from project folder"@,
                Error::StripPrefix => "Error while stripping the prefix"@,
                Error::WrongJSONFile => "Error while reading json"@,
                Error::Conversion => "Error while converting JSON value to a type"@,
                Error::Metrics => "Error while computing Metrics"@,
                Error::Language => "Error while guessing language"@,
                Error::Concurrent => "Error during concurrency"@,
                Error::OutputPath(text) => text@,
                Error::Mutex => "Error while locking mutex"@,
                Error::Sender => "Error while sending job via sender"@,
                Error::Html => "Error while creating HTML file"@,
            },
    {
        match self {
            Error::WrongFile => "Error while reading Files from project folder",
            Error::StripPrefix => "Error while stripping the prefix",
            Error::WrongJSONFile => "Error while reading json",
            Error::Conversion => "Error while converting JSON value to a type",
            Error::Metrics => "Error while computing Metrics",
            Error::Language => "Error while guessing language",
            Error::Concurrent => "Error during concurrency",
            Error::OutputPath(text) => text,
            Error::Mutex => "Error while locking mutex",
            Error::Sender => "Error while sending job via sender",
            Error::Html => "Error while creating HTML file",
        }
    }
}

} // verus!
