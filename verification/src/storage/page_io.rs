//! Errors of the on-disk page file. The file handling itself is I/O and
//! lives in the surrounding application; it reports its failures in this
//! type.

use vstd::prelude::*;

verus! {

/// Failure while reading or writing a page of the database file.
#[derive(Debug, Clone, PartialEq)]
pub enum PageIOError {
    IoError(String),
    DecodeError(crate::storage::page::PageDecodeError),
    PageNotFound(u64),
    PermissionDenied(String),
}

} // verus!
