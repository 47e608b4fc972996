use ferrodb::storage::page::{Page, PageDecodeError};
use ferrodb::storage::page_manager::{PageManagerBuilder, PageManagerError};

#[test]
fn test_read_write_u32() {
    let mut page = Page::new(vec![0; 8]);
    page.write_u32(0, 42).unwrap();
    assert_eq!(page.read_u32(0).unwrap(), 42);
}

#[test]
fn test_invalid_offset() {
    let page = Page::new(vec![0; 4]);
    assert!(matches!(
        page.read_u32(2),
        Err(PageDecodeError::UnexpectedEof)
    ));
}

#[test]
fn test_from_size() {
    let page: Page = Page::zeros(8192);
    assert_eq!(page.as_bytes(), &vec![0; 8192]);
}

#[test]
fn write_u32_stores_big_endian_bytes() {
    let mut page = Page::new(vec![0xAA; 6]);
    page.write_u32(1, 0x01020304).unwrap();
    assert_eq!(page.as_bytes(), &[0xAA, 0x01, 0x02, 0x03, 0x04, 0xAA]);
    assert_eq!(page.read_u32(1).unwrap(), 0x01020304);
}

#[test]
fn write_u32_rejects_out_of_bounds() {
    let mut page = Page::new(vec![0; 4]);
    assert!(matches!(
        page.write_u32(1, 7),
        Err(PageDecodeError::UnexpectedEof)
    ));
    assert_eq!(page.as_bytes(), &[0, 0, 0, 0]);
}

#[test]
fn page_full_repeats_the_byte() {
    let page = Page::full(42, 3);
    assert_eq!(page.as_bytes(), &[42, 42, 42]);
}

#[test]
fn builder_defaults_and_setters() {
    let builder = PageManagerBuilder::new("db.fdb");
    assert_eq!(builder.db_path, "db.fdb");
    assert_eq!(builder.page_size, 4096);
    assert_eq!(builder.cache_size, 1000);
    let builder = builder.page_size(8192).cache_size(500);
    assert_eq!(builder.page_size, 8192);
    assert_eq!(builder.cache_size, 500);
}

#[test]
fn builder_rejects_zero_page_size() {
    let builder = PageManagerBuilder::new("db.fdb").page_size(0);
    assert!(matches!(
        builder.validate(),
        Err(PageManagerError::PageDecodeError(
            PageDecodeError::InvalidPageSize(_)
        ))
    ));
}

#[test]
fn builder_rejects_zero_cache_size() {
    let builder = PageManagerBuilder::new("db.fdb").cache_size(0);
    assert!(matches!(
        builder.validate(),
        Err(PageManagerError::InvalidCacheSize(_))
    ));
}

#[test]
fn builder_accepts_positive_sizes() {
    let builder = PageManagerBuilder::new("db.fdb").page_size(128).cache_size(1);
    assert!(builder.validate().is_ok());
}
