//! Metadata parsing: the prefix split and the entity-tag normalization.

use oss_sdk::metadata::ObjectMetadata;

fn headers() -> Vec<(String, String)> {
    vec![
        ("content-type".to_string(), "text/plain".to_string()),
        ("etag".to_string(), "\"5D41402ABC4B2A76B9719D911017C592\"".to_string()),
        ("x-oss-meta-owner".to_string(), "someone".to_string()),
        ("content-length".to_string(), "11".to_string()),
    ]
}

#[test]
fn new_splits_user_metadata_and_trims_etag() {
    let meta = ObjectMetadata::new(&headers());
    assert_eq!(meta.get_etag().unwrap(), "5D41402ABC4B2A76B9719D911017C592");
    assert_eq!(meta.get_content_type().unwrap(), "text/plain");
    assert_eq!(meta.get_content_length().unwrap(), "11");
    assert_eq!(meta.user_meta_get("owner").unwrap(), "someone");
    assert!(meta.meta_get("x-oss-meta-owner").is_none());
}

#[test]
fn etag_of_nothing_but_quotes_trims_to_empty() {
    let meta = ObjectMetadata::new(&vec![("etag".to_string(), "\"\"\"".to_string())]);
    assert_eq!(meta.get_etag().unwrap(), "");
}

#[test]
fn setters_store_what_getters_read() {
    let mut meta = ObjectMetadata::new(&Vec::new());
    assert!(meta.get_content_md5().is_none());
    meta.set_content_md5("md5value");
    assert_eq!(meta.get_content_md5().unwrap(), "md5value");
    meta.set_etag("tag");
    assert_eq!(meta.get_etag().unwrap(), "tag");
    meta.set_content_length(42);
    assert_eq!(meta.get_content_length().unwrap(), "42");
    meta.set_content_encoding("gzip");
    assert_eq!(meta.get_content_encoding().unwrap(), "gzip");
    meta.set_content_disposition("attachment");
    assert_eq!(meta.get_content_disposition().unwrap(), "attachment");
    meta.set_cache_control("no-cache");
    assert_eq!(meta.get_cache_control().unwrap(), "no-cache");
    meta.set_crc64("123456");
    assert_eq!(meta.get_crc64().unwrap(), "123456");
    meta.set_server_side_encryption("AES256");
    assert_eq!(meta.server_side_encryption().unwrap(), "AES256");
    assert!(meta.object_type().is_none());
}

#[test]
fn empty_content_type_is_ignored() {
    let mut meta = ObjectMetadata::new(&Vec::new());
    meta.set_content_type("");
    assert!(meta.get_content_type().is_none());
    meta.set_content_type("text/html");
    assert_eq!(meta.get_content_type().unwrap(), "text/html");
}

#[test]
fn last_modified_parses_rfc2822_dates() {
    let meta = ObjectMetadata::new(&vec![
        ("Last-Modified".to_string(), "Wed, 21 Oct 2015 07:28:00 GMT".to_string()),
    ]);
    assert_eq!(meta.get_last_modified().unwrap(), 1445412480);
    let bad = ObjectMetadata::new(&vec![("Last-Modified".to_string(), "nonsense".to_string())]);
    assert!(bad.get_last_modified().is_none());
}

#[test]
fn expiration_time_round_trips_through_its_text() {
    let mut meta = ObjectMetadata::new(&Vec::new());
    assert!(meta.get_expiration_time().is_none());
    meta.set_expiration_time(1445412480);
    // the stored text is chrono's default display, which is no RFC 2822 date
    assert!(meta.meta_get("x-oss-expiration").unwrap().starts_with("2015-10-21"));
}
