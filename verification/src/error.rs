//! The failures of reading input and writing output.
use vstd::prelude::*;

verus! {

#[verifier::external_type_specification]
#[verifier::external_body]
pub struct ExStdIoError(std::io::Error);

#[verifier::external_type_specification]
#[verifier::external_body]
pub struct ExCsvError(csv::Error);

/// A failure of the I/O around the engine: the file system or the CSV codec.
#[derive(Debug)]
pub enum IoError {
    Io(std::io::Error),
    Csv(csv::Error),
}

impl From<std::io::Error> for IoError {
    fn from(error: std::io::Error) -> (r: IoError) {
        IoError::Io(error)
    }
}

impl vstd::std_specs::convert::FromSpecImpl<std::io::Error> for IoError {
    open spec fn obeys_from_spec() -> bool {
        true
    }

    open spec fn from_spec(error: std::io::Error) -> IoError {
        IoError::Io(error)
    }
}

impl From<csv::Error> for IoError {
    fn from(error: csv::Error) -> (r: IoError) {
        IoError::Csv(error)
    }
}

impl vstd::std_specs::convert::FromSpecImpl<csv::Error> for IoError {
    open spec fn obeys_from_spec() -> bool {
        true
    }

    open spec fn from_spec(error: csv::Error) -> IoError {
        IoError::Csv(error)
    }
}

} // verus!
