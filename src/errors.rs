use vstd::prelude::*;

verus! {

/// Every failure the storage core reports.
#[derive(Debug, Clone, Copy, PartialEq, Eq, Structural)]
pub enum BarnError {
    InvalidResourceError,
    InvalidAttributeValueError,
    SerializationError,
    DeSerializationError,
    EnvOpenError,
    DbConfigError,
    TxCommitError,
    TxBeginError,
    TxWriteError,
    TxReadError,
    InvalidResourceDataError,
    ResourceNotFoundError,
    UnknownResourceName,
    UnsupportedIndexValueType,
    BadSearchFilter,
}

/// Failures of the bulk loader and of the search front-end.
#[derive(Debug, Clone, Copy, PartialEq, Eq, Structural)]
pub enum LoadError {
    ReaderError,
    InvalidRecord,
    InsertionError(BarnError),
    SearchError,
    InvalidInputFile,
}

} // verus!
