//! Settings of the page manager: a builder for its page size, cache size
//! and database path, and the page manager's error type. The manager
//! itself combines the page file with an in-memory cache; being file I/O,
//! it lives in the surrounding application and is configured through this
//! builder.

use vstd::prelude::*;
use crate::storage::page::PageDecodeError;
use crate::storage::page_io::PageIOError;

verus! {

/// Failure of the page manager.
#[derive(Debug, Clone, PartialEq)]
pub enum PageManagerError {
    InvalidCacheSize(String),
    PageDecodeError(PageDecodeError),
    PageIOError(PageIOError),
}

/// Collects the settings a page manager is built from.
#[derive(Debug, Clone, PartialEq)]
pub struct PageManagerBuilder {
    pub db_path: String,
    pub page_size: usize,
    pub cache_size: usize,
}

impl PageManagerBuilder {
    /// Starts a builder for the database file at `db_path`, with the
    /// default page size and cache size.
    pub fn new(db_path: &str) -> (b: PageManagerBuilder)
        ensures
            b.db_path@ == db_path@,
            b.page_size == 4096,
            b.cache_size == 1000,
    {
        PageManagerBuilder { db_path: db_path.to_owned(), page_size: 4096, cache_size: 1000 }
    }

    /// Sets the page size in bytes.
    pub fn page_size(self, size: usize) -> (b: PageManagerBuilder)
        ensures
            b.db_path@ == self.db_path@,
            b.page_size == size,
            b.cache_size == self.cache_size,
    {
        PageManagerBuilder { page_size: size, ..self }
    }

    /// Sets how many pages the cache may hold.
    pub fn cache_size(self, size: usize) -> (b: PageManagerBuilder)
        ensures
            b.db_path@ == self.db_path@,
            b.page_size == self.page_size,
            b.cache_size == size,
    {
        PageManagerBuilder { cache_size: size, ..self }
    }

    /// Checks the settings: a page manager can be built from them if and
    /// only if this returns `Ok`. A zero page size and a zero cache size
    /// are the two invalid settings.
    pub fn validate(&self) -> (r: Result<(), PageManagerError>)
        ensures
            r is Ok <==> self.page_size != 0 && self.cache_size != 0,
            self.page_size == 0 ==> (r matches Err(PageManagerError::PageDecodeError(
                PageDecodeError::InvalidPageSize(s),
            )) && s@ == "Page size cannot be 0"@),
            self.page_size != 0 && self.cache_size == 0 ==> (r matches Err(
                PageManagerError::InvalidCacheSize(s),
            ) && s@ == "Cache size must be greater than 0."@),
    {
        if self.page_size == 0 {
            Err(
                PageManagerError::PageDecodeError(
                    PageDecodeError::InvalidPageSize("Page size cannot be 0".to_owned()),
                ),
            )
        } else if self.cache_size == 0 {
            Err(PageManagerError::InvalidCacheSize("Cache size must be greater than 0.".to_owned()))
        } else {
            Ok(())
        }
    }
}

} // verus!
