//! Errors and advisories of the analysis.

use vstd::prelude::*;

verus! {

/// The constraint on the inputs that was not met.
#[derive(Clone, Copy, Debug, PartialEq, Eq, Structural)]
pub enum Constraint {
    /// The ciphertext is empty.
    EmptyData,
    /// The key length is zero.
    ZeroKeyLength,
    /// The crib is not longer than the key.
    CribNotLongerThanKey,
    /// The crib is shorter than the key.
    CribShorterThanKey,
    /// The crib is longer than the ciphertext.
    CribLongerThanData,
    /// The text to search for is empty.
    EmptySearchTarget,
    /// The ciphertext is longer than the key-length analysis accepts.
    DataTooLong,
}

/// Why an analysis ended without keys.
#[derive(Clone, Copy, Debug, PartialEq, Eq, Structural)]
pub enum AnalysisError {
    /// An input broke a constraint; nothing was searched.
    InvalidParameters(Constraint),
    /// The whole search space was covered and held no key.
    NoCandidateFound,
}

/// What a successful validation has to say about the inputs.
#[derive(Clone, Copy, Debug, PartialEq, Eq, Structural)]
pub enum Advisory {
    /// Nothing to remark.
    Clear,
    /// There are fewer than 30 bytes of ciphertext for each key byte, too few
    /// for frequency analysis to be reliable.
    SmallSample,
}

impl Constraint {
    /// The sentence that describes the constraint.
    pub open spec fn text(self) -> Seq<char> {
        match self {
            Constraint::EmptyData => "No data was provided"@,
            Constraint::ZeroKeyLength => "The key length is 0"@,
            Constraint::CribNotLongerThanKey => "The crib should be at least one character longer than the key length"@,
            Constraint::CribShorterThanKey => "The crib should be at least as long as the key"@,
            Constraint::CribLongerThanData => "The crib cannot be longer than the data provided"@,
            Constraint::EmptySearchTarget => "The text to search for is empty"@,
            Constraint::DataTooLong => "The data is too long for key length analysis"@,
        }
    }

    /// A description that names the constraint.
    pub fn description(&self) -> (message: &'static str)
        ensures
            message@ == self.text(),
    {
        match self {
            Constraint::EmptyData => "No data was provided",
            Constraint::ZeroKeyLength => "The key length is 0",
            Constraint::CribNotLongerThanKey => "The crib should be at least one character longer than the key length",
            Constraint::CribShorterThanKey => "The crib should be at least as long as the key",
            Constraint::CribLongerThanData => "The crib cannot be longer than the data provided",
            Constraint::EmptySearchTarget => "The text to search for is empty",
            Constraint::DataTooLong => "The data is too long for key length analysis",
        }
    }
}

impl AnalysisError {
    /// The sentence that describes the error.
    pub open spec fn text(self) -> Seq<char> {
        match self {
            AnalysisError::InvalidParameters(constraint) => constraint.text(),
            AnalysisError::NoCandidateFound => "No suitable keys found"@,
        }
    }

    /// A description of the error; for invalid parameters it names the constraint.
    pub fn description(&self) -> (message: &'static str)
        ensures
            message@ == self.text(),
    {
        match self {
            AnalysisError::InvalidParameters(constraint) => constraint.description(),
            AnalysisError::NoCandidateFound => "No suitable keys found",
        }
    }
}

} // verus!
