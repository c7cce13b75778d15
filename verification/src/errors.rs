//! The single failure value surfaced by every fallible operation.

use vstd::prelude::*;

verus! {

/// Every error the predictor can report.
#[derive(Clone, Copy, Debug, PartialEq, Eq, Structural)]
pub enum PredictorError {
    /// A rejected parameter combination (non-positive rates, an unknown
    /// pressure level, a malformed dataset name).
    InvalidParams,
    /// The catalog holds no conforming dataset.
    NoDatasets,
    /// A requested corner is absent from its expected tile.
    NotFound,
    /// A tile whose byte length is not a whole number of records.
    Corrupt,
    /// A tile that the dataset does not hold at all.
    Io,
    /// An operation that produced no trajectory.
    NoData,
}

impl PredictorError {
    /// A short human-readable description.
    pub fn message(&self) -> (r: String)
        ensures
            r@.len() > 0,
    {
        let s = match self {
            PredictorError::InvalidParams => "invalid parameters",
            PredictorError::NoDatasets => "no datasets",
            PredictorError::NotFound => "datapoint not found",
            PredictorError::Corrupt => "invalid number of bytes in file",
            PredictorError::Io => "could not read file",
            PredictorError::NoData => "no data in prediction",
        };
        proof {
            reveal_strlit("invalid parameters");
            reveal_strlit("no datasets");
            reveal_strlit("datapoint not found");
            reveal_strlit("invalid number of bytes in file");
            reveal_strlit("could not read file");
            reveal_strlit("no data in prediction");
        }
        s.to_owned()
    }
}

} // verus!
