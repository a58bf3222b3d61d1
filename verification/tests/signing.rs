//! The signer against hand-computed HMAC-SHA1 reference values.

use oss_sdk::oss::OSS;
use oss_sdk::request::{RequestBuilder, RequestType};

const DATE: &str = "Wed, 21 Oct 2015 07:28:00 GMT";

fn client() -> OSS {
    OSS::new("my_access_id", "my_secret_key", "oss-cn-x.com", "b")
}

#[test]
fn authorization_header_matches_reference() {
    let oss = client();
    let build = RequestBuilder::new().header_put("date", DATE);
    let signature = oss.sign("/hello.txt", &build);
    assert_eq!(signature, "vXrSJ9b4y6li0w7TmsEI8cf+hmM=");
    let build = RequestBuilder::new().header_put("date", DATE);
    let authorization = oss.oss_sign("/hello.txt", &build);
    assert_eq!(authorization, "OSS my_access_id:vXrSJ9b4y6li0w7TmsEI8cf+hmM=");
}

#[test]
fn signing_is_deterministic() {
    let oss = client();
    let build1 = RequestBuilder::new().header_put("date", DATE);
    let build2 = RequestBuilder::new().header_put("date", DATE);
    assert_eq!(oss.sign("/hello.txt", &build1), oss.sign("/hello.txt", &build2));
}

#[test]
fn one_extension_header_gets_trailing_newline() {
    // reference value computed over
    // "PUT\nmd5x\ntext/plain\n<date>\nx-oss-meta-a:v1\n/b/k.txt"
    let oss = client();
    let mut build = RequestBuilder::new()
        .with_method(RequestType::Put)
        .with_content_type("text/plain")
        .oss_header_put("X-OSS-Meta-A", "v1")
        .header_put("date", DATE);
    build.content_md5 = Some("md5x".to_string());
    assert_eq!(oss.sign("/k.txt", &build), "hWLOFdyEFtKs9to4UPYcGgvcZDw=");
}

#[test]
fn two_extension_headers_get_no_trailing_newline() {
    // reference value computed over
    // "PUT\n\n\n<date>\nx-oss-meta-a:v1\nx-oss-meta-b:v2/b/k.txt":
    // the headers are newline-joined with no extra newline before the path
    let oss = client();
    let build = RequestBuilder::new()
        .with_method(RequestType::Put)
        .oss_header_put("x-oss-meta-b", "v2")
        .oss_header_put("x-oss-meta-a", "v1")
        .header_put("date", DATE);
    assert_eq!(oss.sign("/k.txt", &build), "W3ZamwOXHDMezt5Ea1DmxGRrprA=");
}

#[test]
fn header_order_does_not_matter() {
    let oss = client();
    let forward = RequestBuilder::new()
        .oss_header_put("x-oss-meta-a", "v1")
        .oss_header_put("x-oss-meta-b", "v2")
        .header_put("date", DATE);
    let backward = RequestBuilder::new()
        .oss_header_put("x-oss-meta-b", "v2")
        .oss_header_put("x-oss-meta-a", "v1")
        .header_put("date", DATE);
    assert_eq!(oss.sign("/k.txt", &forward), oss.sign("/k.txt", &backward));
}

#[test]
fn parameter_order_does_not_matter() {
    let oss = client();
    let forward = RequestBuilder::new()
        .parameters_put("a", "1")
        .parameters_put("b", "2")
        .header_put("date", DATE);
    let backward = RequestBuilder::new()
        .parameters_put("b", "2")
        .parameters_put("a", "1")
        .header_put("date", DATE);
    assert_eq!(oss.sign("/k.txt", &forward), oss.sign("/k.txt", &backward));
}

#[test]
fn build_request_stamps_the_current_date() {
    let oss = client();
    let build = RequestBuilder::new();
    let (host, headers) = oss.build_request("/hello.txt", &build);
    assert_eq!(host, "http://b.oss-cn-x.com/hello.txt");
    let date = headers.get("Date").unwrap();
    assert!(date.ends_with(" GMT"));
    assert!(headers.get("Authorization").unwrap().starts_with("OSS my_access_id:"));
}

#[test]
fn date_is_an_http_date() {
    let oss = client();
    let date = oss.date();
    assert_eq!(date.len(), 29);
    assert!(date.ends_with(" GMT"));
    assert_eq!(&date[3..5], ", ");
}

#[test]
fn build_request_headers_hold_date_and_authorization() {
    let oss = client();
    let build = RequestBuilder::new().oss_header_put("x-oss-meta-a", "v1");
    let (host, headers) = oss.build_request_with_date("/hello.txt", &build, DATE);
    assert_eq!(host, "http://b.oss-cn-x.com/hello.txt");
    assert_eq!(headers.get("Date").unwrap().as_str(), DATE);
    assert_eq!(headers.get("x-oss-meta-a").unwrap().as_str(), "v1");
    let auth = headers.get("Authorization").unwrap();
    assert!(auth.starts_with("OSS my_access_id:"));
}
