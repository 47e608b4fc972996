//! Engine configuration: plain settings records and their default values.
//! Reading a configuration file from disk is left to the surrounding
//! application, which hands the parsed values over in these types.

use vstd::prelude::*;

verus! {

/// Top-level configuration of the engine.
#[derive(Debug, Clone, PartialEq)]
pub struct Config {
    pub storage: StorageConfig,
    pub logging: LoggingConfig,
}

/// Settings of the page storage engine.
#[derive(Debug, Clone, PartialEq)]
pub struct StorageConfig {
    pub db_path: String,
    pub page_size: u64,
    pub cache_size: usize,
}

/// Settings of the logging subsystem.
#[derive(Debug, Clone, PartialEq)]
pub struct LoggingConfig {
    pub level: String,
    pub file: String,
    pub max_size_mb: u64,
    pub rotate: bool,
    pub max_files: u32,
}

/// Failure to obtain a configuration.
#[derive(Debug, Clone, PartialEq)]
pub enum ConfigError {
    FileNotFound(String),
    InvalidYaml(String),
}

impl Default for Config {
    /// The built-in configuration used when no file is given.
    fn default() -> (c: Config)
        ensures
            c.storage.db_path@ == "./ferrodb/database.fdb"@,
            c.storage.page_size == 4096,
            c.storage.cache_size == 10,
            c.logging.level@ == "info"@,
            c.logging.file@ == "./ferrodb/log.log"@,
            c.logging.max_size_mb == 100,
            c.logging.rotate == true,
            c.logging.max_files == 5,
    {
        Config {
            storage: StorageConfig {
                db_path: "./ferrodb/database.fdb".to_owned(),
                page_size: 4096,
                cache_size: 10,
            },
            logging: LoggingConfig {
                level: "info".to_owned(),
                file: "./ferrodb/log.log".to_owned(),
                max_size_mb: 100,
                rotate: true,
                max_files: 5,
            },
        }
    }
}

} // verus!
