//! Fixed-size storage pages and the settings of the page manager.

pub mod page;
pub mod page_io;
pub mod page_manager;
