//! Upload policies: the JSON document, its base64, and its signature.

use base64::Engine;
use oss_sdk::object::PolicyBuilder;
use oss_sdk::oss::OSS;

const EXPIRATION: &str = "2024-01-01T00:00:00.000Z";

fn client() -> OSS {
    OSS::new("my_access_id", "my_secret_key", "oss-cn-x.com", "b")
}

#[test]
fn policy_conditions_hold_the_content_length_range() {
    let oss = client();
    let build = PolicyBuilder::new()
        .with_expire(3600)
        .with_upload_dir("upload/")
        .with_content_type("text/plain")
        .with_max_upload_size(104857600);
    let resp = oss.get_upload_object_policy_at(&build, EXPIRATION);
    let json_bytes = base64::engine::general_purpose::STANDARD.decode(&resp.policy).unwrap();
    let doc: serde_json::Value = serde_json::from_slice(&json_bytes).unwrap();
    assert_eq!(doc["expiration"].as_str().unwrap(), EXPIRATION);
    let range = &doc["conditions"][1];
    assert_eq!(range[0].as_str().unwrap(), "content-length-range");
    assert_eq!(range[1].as_i64().unwrap(), 1);
    assert_eq!(range[2].as_i64().unwrap(), 104857600);
    assert_eq!(doc["conditions"][0]["bucket"].as_str().unwrap(), "b");
    assert_eq!(doc["conditions"][3][2].as_str().unwrap(), "upload/");
    assert_eq!(doc["conditions"][4][2][0].as_str().unwrap(), "text/plain");
}

#[test]
fn policy_signature_matches_reference() {
    let oss = client();
    let build = PolicyBuilder::new()
        .with_expire(3600)
        .with_upload_dir("upload/")
        .with_content_type("text/plain")
        .with_max_upload_size(104857600);
    let resp = oss.get_upload_object_policy_at(&build, EXPIRATION);
    assert_eq!(resp.signature, "Ryq/aqEQKCkeV95eHDCzsDJ5hyI=");
    assert_eq!(resp.access_id, "my_access_id");
    assert_eq!(resp.host, "https://b.oss-cn-x.com");
    assert_eq!(resp.success_action_status, 200);
}

#[test]
fn test_get_upload_object_policy() {
    let oss = client();
    let policy_builder = PolicyBuilder::new()
        .with_expire(60 * 60)
        .with_upload_dir("upload/mydir/")
        .with_content_type("text/plain")
        .with_max_upload_size(100 * 1024 * 1024);
    let policy = oss.get_upload_object_policy(&policy_builder).unwrap();
    println!("policy: {:?}", policy);
}

#[test]
fn object_test_get_upload_object_policy() {
    let oss = client();
    let policy_builder = PolicyBuilder::new()
        .with_expire(60 * 60)
        .with_upload_dir("upload/mydir/")
        .with_content_type("text/plain")
        .with_max_upload_size(100 * 1024 * 1024);
    let policy = oss.get_upload_object_policy(&policy_builder).unwrap();
    assert_eq!(policy.success_action_status, 200);
}

#[test]
fn policy_builder_defaults() {
    let build = PolicyBuilder::new();
    assert_eq!(build.expire, 60);
    assert_eq!(build.upload_dir, "");
    assert_eq!(build.content_type, "text/plain");
    assert_eq!(build.max_upload_size, 100 * 1024 * 1024);
}
