//! Browser upload policies: a signed JSON document for direct form uploads.

use vstd::prelude::*;
use vstd::string::StringSliceAdditionalSpecFns;
use vstd::utf8::encode_utf8;
use crate::auth::{hmac_sha1, hmac_sha1_of};
use crate::error::OssError;
use crate::oss::{OssView, OSS};
use crate::request::Seconds;
use crate::strutil::{i64_to_string, int_dec_chars, push_char};
use crate::util::{base64_encode, base64_of};

verus! {

/// What a browser needs to POST a file straight to the bucket.
#[derive(Debug, Clone)]
pub struct PolicyResp {
    pub access_id: String,
    pub host: String,
    pub policy: String,
    pub signature: String,
    pub success_action_status: u8,
}

/// The option bag of an upload policy.
#[derive(Debug, Clone)]
pub struct PolicyBuilder {
    pub expire: Seconds,
    pub upload_dir: String,
    pub content_type: String,
    pub max_upload_size: i64,
}

impl PolicyBuilder {
    /// A fresh policy: one minute of validity, text uploads of up to 100 MB,
    /// no directory prefix.
    pub fn new() -> (r: Self)
        ensures
            r.expire == 60,
            r.upload_dir@ == Seq::<char>::empty(),
            r.content_type@ == "text/plain"@,
            r.max_upload_size == 104857600,
    {
        let upload_dir = String::new();
        PolicyBuilder {
            expire: 60,
            upload_dir,
            content_type: "text/plain".to_owned(),
            max_upload_size: 100 * 1024 * 1024,
        }
    }

    pub fn with_expire(self, expire: Seconds) -> (r: Self)
        ensures
            r.expire == expire,
            r.upload_dir@ == self.upload_dir@,
            r.content_type@ == self.content_type@,
            r.max_upload_size == self.max_upload_size,
    {
        PolicyBuilder { expire, ..self }
    }

    pub fn with_upload_dir(self, upload_dir: &str) -> (r: Self)
        ensures
            r.expire == self.expire,
            r.upload_dir@ == upload_dir@,
            r.content_type@ == self.content_type@,
            r.max_upload_size == self.max_upload_size,
    {
        PolicyBuilder { upload_dir: upload_dir.to_owned(), ..self }
    }

    pub fn with_content_type(self, content_type: &str) -> (r: Self)
        ensures
            r.expire == self.expire,
            r.upload_dir@ == self.upload_dir@,
            r.content_type@ == content_type@,
            r.max_upload_size == self.max_upload_size,
    {
        PolicyBuilder { content_type: content_type.to_owned(), ..self }
    }

    pub fn with_max_upload_size(self, max_upload_size: i64) -> (r: Self)
        ensures
            r.expire == self.expire,
            r.upload_dir@ == self.upload_dir@,
            r.content_type@ == self.content_type@,
            r.max_upload_size == max_upload_size,
    {
        PolicyBuilder { max_upload_size, ..self }
    }
}

/// The policy JSON document, character for character.  Its conditions stand
/// in a fixed order: bucket equality, the content-length range starting at
/// one byte, the fixed success status, the key prefix, and the content type.
pub open spec fn policy_json_chars(
    expiration: Seq<char>,
    bucket: Seq<char>,
    max_upload_size: int,
    upload_dir: Seq<char>,
    content_type: Seq<char>,
) -> Seq<char> {
    "\n        {\n            \"expiration\": \""@ + expiration
        + "\",\n            \"conditions\": [\n                {\"bucket\": \""@ + bucket
        + "\" },\n                [\"content-length-range\", 1, "@ + int_dec_chars(max_upload_size)
        + "],\n                [\"eq\", \"$success_action_status\", \""@ + "200"@
        + "\"],\n                [\"starts-with\", \"$key\", \""@ + upload_dir
        + "\"],\n                [\"in\", \"$content-type\", [\""@ + content_type
        + "\"]]\n            ]\n        }\n        "@
}

/// The base64 of the policy JSON: the `policy` form field.
pub open spec fn spec_policy_b64(
    expiration: Seq<char>,
    bucket: Seq<char>,
    max_upload_size: int,
    upload_dir: Seq<char>,
    content_type: Seq<char>,
) -> Seq<char> {
    base64_of(
        encode_utf8(
            policy_json_chars(expiration, bucket, max_upload_size, upload_dir, content_type),
        ),
    )
}

/// Relies on chrono's `Local::now`, date arithmetic and `format`: the local
/// wall-clock time `expire` seconds from now, as `YYYY-MM-DDTHH:mm:ss.sssZ`.
/// The result depends on the clock and the time zone, so nothing is promised
/// of it.  Should the sum leave chrono's representable range, the current
/// time stands in its place rather than a panic.
#[verifier::external_body]
fn local_expiration(expire: i64) -> String
    requires
        -9_000_000_000_000 <= expire <= 9_000_000_000_000,
{
    let now = chrono::Local::now().naive_local();
    let date = match now.checked_add_signed(chrono::Duration::seconds(expire)) {
        Some(d) => d,
        None => now,
    };
    date.format("%Y-%m-%dT%H:%M:%S%.3fZ").to_string()
}

impl OSS {
    /// The upload policy that expires at `expiration`: deterministic in all
    /// of its inputs.
    pub fn get_upload_object_policy_at(&self, build: &PolicyBuilder, expiration: &str) -> (r:
        PolicyResp)
        ensures
            r.access_id@ == self@.key_id,
            r.host@ == "https://"@ + self@.bucket + seq!['.'] + self@.endpoint,
            r.policy@ == spec_policy_b64(
                expiration@,
                self@.bucket,
                build.max_upload_size as int,
                build.upload_dir@,
                build.content_type@,
            ),
            r.signature@ == base64_of(hmac_sha1_of(self@.key_secret, r.policy@)),
            r.success_action_status == 200,
    {
        let bucket = self.bucket();
        let size = i64_to_string(build.max_upload_size);
        let mut json = "\n        {\n            \"expiration\": \"".to_owned();
        json.append(expiration);
        json.append("\",\n            \"conditions\": [\n                {\"bucket\": \"");
        json.append(bucket.as_str());
        json.append("\" },\n                [\"content-length-range\", 1, ");
        json.append(size.as_str());
        json.append("],\n                [\"eq\", \"$success_action_status\", \"");
        json.append("200");
        json.append("\"],\n                [\"starts-with\", \"$key\", \"");
        json.append(build.upload_dir.as_str());
        json.append("\"],\n                [\"in\", \"$content-type\", [\"");
        json.append(build.content_type.as_str());
        json.append("\"]]\n            ]\n        }\n        ");
        proof {
            assert(json@ =~= policy_json_chars(
                expiration@,
                self@.bucket,
                build.max_upload_size as int,
                build.upload_dir@,
                build.content_type@,
            ));
        }
        let policy = base64_encode(json.as_str().as_bytes());
        let secret = self.key_secret();
        let digest = hmac_sha1(secret.as_str(), policy.as_str());
        let signature = base64_encode(digest.as_slice());
        let mut host = "https://".to_owned();
        host.append(bucket.as_str());
        push_char(&mut host, '.');
        let ep = self.endpoint();
        host.append(ep.as_str());
        proof {
            assert(host@ =~= "https://"@ + self@.bucket + seq!['.'] + self@.endpoint);
        }
        PolicyResp {
            access_id: self.key_id(),
            host,
            policy,
            signature,
            success_action_status: 200,
        }
    }

    /// The upload policy for a browser form upload, expiring `build.expire`
    /// seconds from now on the local clock.
    pub fn get_upload_object_policy(&self, build: &PolicyBuilder) -> (r: Result<
        PolicyResp,
        OssError,
    >)
        requires
            -9_000_000_000_000 <= build.expire <= 9_000_000_000_000,
        ensures
            r is Ok,
            ({
                let p = r->Ok_0;
                &&& p.access_id@ == self@.key_id
                &&& p.host@ == "https://"@ + self@.bucket + seq!['.'] + self@.endpoint
                &&& p.success_action_status == 200
                &&& exists|exp: Seq<char>|
                    p.policy@ == #[trigger] spec_policy_b64(
                        exp,
                        self@.bucket,
                        build.max_upload_size as int,
                        build.upload_dir@,
                        build.content_type@,
                    )
                &&& p.signature@ == base64_of(hmac_sha1_of(self@.key_secret, p.policy@))
            }),
    {
        let expiration = local_expiration(build.expire);
        let resp = self.get_upload_object_policy_at(build, expiration.as_str());
        Ok(resp)
    }
}

} // verus!
