//! Why the store refuses an operation.

use vstd::prelude::*;

verus! {

/// Why a store operation was refused.
#[derive(Debug, Clone, Copy, PartialEq, Eq, Structural)]
pub enum StoreError {
    /// A project with the same root path exists.
    DuplicateRootPath,
    /// The project already holds a file with the same path.
    DuplicateFile,
    /// The project a file names does not exist.
    UnknownProject,
    /// The file a node names does not exist.
    UnknownFile,
    /// An endpoint of an edge does not exist.
    UnknownNode,
    /// The table has run out of identifiers.
    Exhausted,
    /// A count does not fit the 32 bits of a status report.
    CountOverflow,
    /// A row to restore has an identifier below the table's counter.
    OutOfOrder,
}

impl StoreError {
    /// The error in words.
    pub open spec fn words(self) -> Seq<char> {
        match self {
            StoreError::DuplicateRootPath => "a project with this root path exists"@,
            StoreError::DuplicateFile => "the project has a file with this path"@,
            StoreError::UnknownProject => "the project does not exist"@,
            StoreError::UnknownFile => "the file does not exist"@,
            StoreError::UnknownNode => "an endpoint of the edge does not exist"@,
            StoreError::Exhausted => "the table has no identifier left"@,
            StoreError::CountOverflow => "a count exceeds 32 bits"@,
            StoreError::OutOfOrder => "the row is out of identifier order"@,
        }
    }

    /// The error in words.
    pub fn message(&self) -> (text: String)
        ensures
            text@ == self.words(),
    {
        match self {
            StoreError::DuplicateRootPath => "a project with this root path exists".to_owned(),
            StoreError::DuplicateFile => "the project has a file with this path".to_owned(),
            StoreError::UnknownProject => "the project does not exist".to_owned(),
            StoreError::UnknownFile => "the file does not exist".to_owned(),
            StoreError::UnknownNode => "an endpoint of the edge does not exist".to_owned(),
            StoreError::Exhausted => "the table has no identifier left".to_owned(),
            StoreError::CountOverflow => "a count exceeds 32 bits".to_owned(),
            StoreError::OutOfOrder => "the row is out of identifier order".to_owned(),
        }
    }
}

} // verus!
