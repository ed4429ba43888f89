use vstd::prelude::*;

verus! {

/// The ways an operation on the dataset can fail.
#[derive(Clone, Copy, Debug, PartialEq, Eq, Structural)]
pub enum DataError {
    /// The source could not be read or written.
    Io,
    /// A row has too few fields, or a number that does not parse.
    Format,
    /// No persisted store exists.
    NotFound,
    /// The persisted store holds no rows.
    EmptyResult,
    /// The persisted store could not be created or written.
    Storage,
    /// The typeface used to measure text is not available.
    FontResolution,
}

impl DataError {
    /// A message for a person.
    pub fn message(&self) -> &'static str {
        match self {
            DataError::Io => "the file could not be read or written",
            DataError::Format => "the data is not in the expected format",
            DataError::NotFound => "database file not found",
            DataError::EmptyResult => "the database holds no records",
            DataError::Storage => "the database could not be written",
            DataError::FontResolution => "the font used to measure text was not found",
        }
    }
}

} // verus!
