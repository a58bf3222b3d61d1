//! The request configuration and the host and resource formatting.

use oss_sdk::oss::OSS;
use oss_sdk::request::{RequestBuilder, RequestType};
use oss_sdk::strutil::{i64_to_string, u64_to_string};

fn client() -> OSS {
    OSS::new("id", "secret", "oss-cn-x.com", "b")
}

#[test]
fn builder_defaults() {
    let build = RequestBuilder::new();
    assert!(build.cdn.is_none());
    assert!(build.https);
    assert_eq!(build.method, RequestType::Get);
    assert_eq!(build.expire, 60);
    assert!(build.content_type.is_none());
    assert!(build.content_md5.is_none());
    assert_eq!(build.parameters.len(), 0);
    assert_eq!(build.oss_headers.len(), 0);
}

#[test]
fn builder_methods_fill_parameters() {
    let build = RequestBuilder::new()
        .with_http()
        .with_cdn("http://cdn.example")
        .with_content_type("text/plain")
        .with_expire(600)
        .response_content_disposition("file.txt")
        .oss_signature_version2()
        .response_content_encoding("gzip")
        .oss_download_speed_limit(30)
        .oss_download_allow_ip("1.2.3.4", 24)
        .oss_ac_forward_allow();
    assert!(!build.https);
    assert_eq!(build.cdn.as_deref(), Some("http://cdn.example"));
    assert_eq!(build.content_type.as_deref(), Some("text/plain"));
    assert_eq!(build.expire, 600);
    let p = &build.parameters;
    assert_eq!(
        p.get("response-content-disposition").unwrap(),
        "attachment;filename=file.txt"
    );
    assert_eq!(p.get("x-oss-signature-version").unwrap(), "OSS2");
    assert_eq!(p.get("response-content-encoding").unwrap(), "gzip");
    assert_eq!(p.get("x-oss-traffic-limit").unwrap(), "245760");
    assert_eq!(p.get("x-oss-ac-source-ip").unwrap(), "1.2.3.4");
    assert_eq!(p.get("x-oss-ac-subnet-mask").unwrap(), "24");
    assert_eq!(p.get("x-oss-ac-forwarded-for").unwrap(), "true");
}

#[test]
fn inserting_twice_replaces_the_value() {
    let build = RequestBuilder::new()
        .parameters_put("k", "first")
        .parameters_put("k", "second");
    assert_eq!(build.parameters.len(), 1);
    assert_eq!(build.parameters.get("k").unwrap(), "second");
}

#[test]
fn format_key_adds_one_leading_slash() {
    let oss = client();
    assert_eq!(oss.format_key("hello.txt"), "/hello.txt");
    assert_eq!(oss.format_key("/hello.txt"), "/hello.txt");
}

#[test]
fn format_oss_resource_str_degenerates_on_empty_bucket() {
    let oss = client();
    assert_eq!(oss.format_oss_resource_str("b", "/k.txt"), "/b/k.txt");
    assert_eq!(oss.format_oss_resource_str("", "/k.txt"), "/");
}

#[test]
fn format_host_strips_the_endpoint_scheme() {
    let plain = client();
    let build = RequestBuilder::new();
    assert_eq!(plain.format_host("b", "k.txt", &build), "http://b.oss-cn-x.com/k.txt");
    let https = OSS::new("id", "secret", "https://oss-cn-x.com", "b");
    assert_eq!(https.format_host("b", "k.txt", &build), "https://b.oss-cn-x.com/k.txt");
    let http = OSS::new("id", "secret", "http://oss-cn-x.com", "b");
    assert_eq!(http.format_host("b", "k.txt", &build), "http://b.oss-cn-x.com/k.txt");
}

#[test]
fn format_host_prefers_the_cdn() {
    let oss = client();
    let build = RequestBuilder::new().with_cdn("http://cdn.example");
    assert_eq!(oss.format_host("b", "k.txt", &build), "http://cdn.example/k.txt");
}

#[test]
fn getters_return_what_new_stored() {
    let oss = client();
    assert_eq!(oss.key_id(), "id");
    assert_eq!(oss.key_secret(), "secret");
    assert_eq!(oss.endpoint(), "oss-cn-x.com");
    assert_eq!(oss.bucket(), "b");
}

#[test]
fn decimal_rendering_matches_std() {
    assert_eq!(u64_to_string(0), "0");
    assert_eq!(u64_to_string(245760), "245760");
    assert_eq!(u64_to_string(u64::MAX), u64::MAX.to_string());
    assert_eq!(i64_to_string(-123), "-123");
    assert_eq!(i64_to_string(i64::MIN), i64::MIN.to_string());
    assert_eq!(i64_to_string(1700000060), "1700000060");
}

#[test]
fn error_message_reads_back() {
    let e = oss_sdk::error::OssError::Message("status 404".to_string());
    assert_eq!(e.message(), "status 404");
}
