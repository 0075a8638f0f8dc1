//! The error kinds shared by the parsers and the trackers.

use vstd::prelude::*;

verus! {

/// The counter source that an input or output failure concerns.
#[derive(Debug, Clone, Copy, PartialEq, Eq, Structural)]
pub enum File {
    /// The processor statistics source.
    ProcessorFile,
    /// The memory information source.
    MemoryFile,
}

/// Everything that can go wrong while sampling and computing.
#[derive(Debug, Clone, Copy, PartialEq, Eq, Structural)]
pub enum Error {
    /// A value that the computation needs is absent.
    EmptyValueError,
    /// The values break an ordering or a bound.
    InvalidValueError,
    /// A piece of text is not an unsigned number.
    ParseValueError,
    /// The output could not be flushed.
    OutputFlushError,
    /// The named source could not be read.
    ReadError(File),
    /// The named source could not be opened.
    FileOpenError(File),
}

/// The sentence that describes an error to a person.
pub open spec fn message_of(error: Error) -> Seq<char> {
    match error {
        Error::EmptyValueError => "Failed to find a value"@,
        Error::InvalidValueError => "Failed to validate value"@,
        Error::ParseValueError => "Failed to parse value"@,
        Error::OutputFlushError => "Failed to flush to the output"@,
        Error::ReadError(File::ProcessorFile) => "Failed to read /proc/stat"@,
        Error::ReadError(File::MemoryFile) => "Failed to read /proc/meminfo"@,
        Error::FileOpenError(File::ProcessorFile) => "Failed to open /proc/stat"@,
        Error::FileOpenError(File::MemoryFile) => "Failed to open /proc/meminfo"@,
    }
}

impl Error {
    /// Describes the error in a sentence.
    pub fn message(&self) -> (text: String)
        ensures
            text@ == message_of(*self),
    {
        let text: &str = match self {
            Error::EmptyValueError => "Failed to find a value",
            Error::InvalidValueError => "Failed to validate value",
            Error::ParseValueError => "Failed to parse value",
            Error::OutputFlushError => "Failed to flush to the output",
            Error::ReadError(File::ProcessorFile) => "Failed to read /proc/stat",
            Error::ReadError(File::MemoryFile) => "Failed to read /proc/meminfo",
            Error::FileOpenError(File::ProcessorFile) => "Failed to open /proc/stat",
            Error::FileOpenError(File::MemoryFile) => "Failed to open /proc/meminfo",
        };
        text.to_owned()
    }
}

} // verus!
