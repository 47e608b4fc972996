use ferrodb::config::Config;

#[test]
fn default_configuration_values() {
    let config = Config::default();
    assert_eq!(config.storage.db_path, "./ferrodb/database.fdb");
    assert_eq!(config.storage.page_size, 4096);
    assert_eq!(config.storage.cache_size, 10);
    assert_eq!(config.logging.level, "info");
    assert_eq!(config.logging.file, "./ferrodb/log.log");
    assert_eq!(config.logging.max_size_mb, 100);
    assert_eq!(config.logging.rotate, true);
    assert_eq!(config.logging.max_files, 5);
}
