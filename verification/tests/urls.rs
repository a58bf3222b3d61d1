//! Pre-signed URLs: shape, parameter handling, and the key encoding.

use oss_sdk::oss::OSS;
use oss_sdk::request::RequestBuilder;

const TS: i64 = 1700000060;

fn client() -> OSS {
    OSS::new("my_access_id", "my_secret_key", "oss-cn-x.com", "b")
}

#[test]
fn sign_url_has_expected_shape() {
    let oss = client();
    let build = RequestBuilder::new().with_expire(60);
    let signed = oss.sign_url_at("/a.txt", &build, TS);
    assert_eq!(
        signed,
        "/a.txt?Expires=1700000060&OSSAccessKeyId=my_access_id&Signature=%2BTbNSW1RQbgVcipF0BtSXmTDfWE%3D"
    );
}

#[test]
fn download_url_prefixes_bucket_and_endpoint() {
    let oss = client();
    let build = RequestBuilder::new().with_expire(60);
    let url = oss.sign_download_url_at("/a.txt", &build, TS);
    assert_eq!(
        url,
        "b.oss-cn-x.com/a.txt?Expires=1700000060&OSSAccessKeyId=my_access_id&Signature=%2BTbNSW1RQbgVcipF0BtSXmTDfWE%3D"
    );
}

#[test]
fn download_url_uses_cdn_override() {
    let oss = client();
    let build = RequestBuilder::new().with_cdn("http://cdn.example");
    let url = oss.sign_download_url_at("/a.txt", &build, TS);
    assert!(url.starts_with("http://cdn.example/a.txt?Expires=1700000060&"));
}

#[test]
fn upload_url_signs_put_verb() {
    // reference value computed over "PUT\n\ntext/plain\n<ts>\n/b/tmp.txt"
    let oss = client();
    let build = RequestBuilder::new()
        .with_cdn("http://cdn.ipadump.com")
        .with_content_type("text/plain");
    let url = oss.sign_upload_url_at("tmp.txt", &build, TS);
    assert_eq!(
        url,
        "http://cdn.ipadump.com/tmp.txt?Expires=1700000060&OSSAccessKeyId=my_access_id&Signature=B3XMIVlyjEAi4CP5nsN13X9ZfC4%3D"
    );
}

#[test]
fn source_ip_parameter_signs_but_never_shows() {
    let oss = client();
    let plain = RequestBuilder::new().parameters_put("b", "2").parameters_put("a", "1");
    let with_ip = RequestBuilder::new()
        .parameters_put("b", "2")
        .parameters_put("a", "1")
        .parameters_put("x-oss-ac-source-ip", "1.2.3.4");
    let url_plain = oss.sign_url_at("/a.txt", &plain, TS);
    let url_with_ip = oss.sign_url_at("/a.txt", &with_ip, TS);
    // the parameter itself never reaches the query string
    assert!(!url_with_ip.contains("x-oss-ac-source-ip"));
    // but it changes the signature
    assert_eq!(
        url_plain,
        "/a.txt?Expires=1700000060&OSSAccessKeyId=my_access_id&Signature=yU%2B%2BdpAQXv7KnxDm8WrfuzZmV8k%3D&a=1&b=2"
    );
    assert_eq!(
        url_with_ip,
        "/a.txt?Expires=1700000060&OSSAccessKeyId=my_access_id&Signature=67eIEl8BU%2Be8yY1Tvz6mirXnIsQ%3D&a=1&b=2"
    );
    assert_ne!(url_plain, url_with_ip);
}

#[test]
fn key_urlencode_encodes_each_segment() {
    let oss = client();
    let encoded = oss.key_urlencode("/ipas/cn/-10/ipadump.com_imem\u{5185}\u{5b58}\u{4fee}\u{6539}\u{5668}_1.0.0.ipa");
    assert_eq!(
        encoded,
        "/ipas/cn/-10/ipadump.com_imem%E5%86%85%E5%AD%98%E4%BF%AE%E6%94%B9%E5%99%A8_1.0.0.ipa"
    );
}

#[test]
fn key_urlencode_round_trips_through_decoding() {
    let oss = client();
    for key in ["/a/b c/d+e", "/ipas/cn/-10/ipadump.com_imem\u{5185}\u{5b58}_1.0.ipa", "/r@s?t=u&v"] {
        let encoded = oss.key_urlencode(key);
        let decoded = urlencoding::decode(&encoded).unwrap();
        assert_eq!(decoded, key);
        assert_eq!(oss.key_urlencode(&decoded), encoded);
    }
}

#[test]
fn sign_download_url_test() {
    let oss = client();
    let build = RequestBuilder::new()
        .with_cdn("http://cdn.ipadump.com")
        .with_expire(60)
        .oss_download_speed_limit(30);
    let download_url = oss.sign_download_url(
        "/ipas/cn/-10/ipadump.com_imem\u{5185}\u{5b58}\u{4fee}\u{6539}\u{5668}_1.0.0.ipa",
        &build,
    );
    assert!(download_url.starts_with("http://cdn.ipadump.com/ipas/cn/-10/"));
    assert!(download_url.contains("x-oss-traffic-limit=245760"));
}

#[test]
fn sign_upload_url_test() {
    let oss = client();
    let build = RequestBuilder::new()
        .with_cdn("http://cdn.ipadump.com")
        .with_content_type("text/plain")
        .with_expire(600);
    let upload_url = oss.sign_upload_url("tmp.txt", &build);
    assert!(upload_url.starts_with("http://cdn.ipadump.com/tmp.txt?Expires="));
}
