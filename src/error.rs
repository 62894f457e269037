//! The ways a query over a directory of indexes can fail.
use vstd::prelude::*;

verus! {

/// A failure, with the path it concerns where there is one.
#[derive(Debug)]
pub enum FortuneError {
    /// An index ends before its offset table does, or describes a record
    /// shorter than its separator line.
    CorruptIndex(String),
    /// The draw landed on the end-of-data position of an index, which starts
    /// no record.
    RecordOutOfRange(String),
    /// The directory could not be listed.
    DirectoryUnreadable(String),
    /// No usable index holds any record.
    NoFortunesAvailable,
}

/// A failure as a mathematical value.
pub enum Failure {
    CorruptIndex(Seq<char>),
    RecordOutOfRange(Seq<char>),
    DirectoryUnreadable(Seq<char>),
    NoFortunesAvailable,
}

impl View for FortuneError {
    type V = Failure;

    open spec fn view(&self) -> Failure {
        match self {
            FortuneError::CorruptIndex(p) => Failure::CorruptIndex(p@),
            FortuneError::RecordOutOfRange(p) => Failure::RecordOutOfRange(p@),
            FortuneError::DirectoryUnreadable(p) => Failure::DirectoryUnreadable(p@),
            FortuneError::NoFortunesAvailable => Failure::NoFortunesAvailable,
        }
    }
}

} // verus!
