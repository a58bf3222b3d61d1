//! The client handle: credentials and bucket identity, resource and host
//! formatting.

use vstd::prelude::*;
use vstd::string::StringSliceAdditionalSpecFns;
use crate::auth::spec_oss_sign;
use crate::codec::encode_key_path;
use crate::codec::key_encoded;
use crate::request::{BuilderView, RequestBuilder};
use crate::strmap::{
    insert_all, lemma_insert_all_push, lemma_map_insert_get, map_insert, EntryView, StrMap,
};
use crate::strutil::push_char;
use crate::strutil::starts_with;
use crate::strutil::str_char_len;
use crate::strutil::str_starts_with;

verus! {

/// Credentials and bucket identity, as specifications see them.
pub ghost struct OssView {
    pub key_id: Seq<char>,
    pub key_secret: Seq<char>,
    pub endpoint: Seq<char>,
    pub bucket: Seq<char>,
}

/// The client handle: account credentials and the bucket they act on.
#[derive(Debug)]
pub struct OSS {
    key_id: String,
    key_secret: String,
    endpoint: String,
    bucket: String,
}

impl View for OSS {
    type V = OssView;

    closed spec fn view(&self) -> OssView {
        OssView {
            key_id: self.key_id@,
            key_secret: self.key_secret@,
            endpoint: self.endpoint@,
            bucket: self.bucket@,
        }
    }
}

/// A key with a leading slash: one is added where it is missing.
pub open spec fn format_key_chars(key: Seq<char>) -> Seq<char> {
    if starts_with(key, "/"@) {
        key
    } else {
        seq!['/'] + key
    }
}

/// The resource path that is signed: `/bucket` when the bucket name is empty,
/// else `/bucket` followed by the key.
pub open spec fn resource_chars(bucket: Seq<char>, key: Seq<char>) -> Seq<char> {
    if bucket.len() == 0 {
        seq!['/'] + bucket
    } else {
        seq!['/'] + bucket + key
    }
}

/// The first position where `pat` occurs in `s`.
pub open spec fn find_sub(s: Seq<char>, pat: Seq<char>) -> Option<int>
    decreases s.len(),
{
    if pat.len() > s.len() {
        None
    } else if s.subrange(0, pat.len() as int) == pat {
        Some(0int)
    } else if s.len() <= pat.len() {
        None
    } else {
        match find_sub(s.drop_first(), pat) {
            Some(i) => Some(i + 1),
            None => None,
        }
    }
}

/// `s` with the first occurrence of `pat` removed, if there is one.
pub open spec fn remove_first_chars(s: Seq<char>, pat: Seq<char>) -> Seq<char> {
    match find_sub(s, pat) {
        Some(i) => s.subrange(0, i) + s.subrange(i + pat.len(), s.len() as int),
        None => s,
    }
}

pub proof fn lemma_find_sub_at(s: Seq<char>, pat: Seq<char>, i: int)
    requires
        0 <= i,
        i + pat.len() <= s.len(),
        s.subrange(i, i + pat.len()) == pat,
        forall|j: int| 0 <= j < i ==> #[trigger] s.subrange(j, j + pat.len()) != pat,
    ensures
        find_sub(s, pat) == Some(i),
    decreases i,
{
    if i == 0 {
    } else {
        assert(s.subrange(0, 0 + pat.len() as int) != pat);
        assert(s.subrange(0, pat.len() as int) != pat);
        let t = s.drop_first();
        assert(t.subrange(i - 1, i - 1 + pat.len()) =~= s.subrange(i, i + pat.len()));
        assert forall|j: int| 0 <= j < i - 1 implies #[trigger] t.subrange(j, j + pat.len()) != pat by {
            assert(t.subrange(j, j + pat.len()) =~= s.subrange(j + 1, j + 1 + pat.len()));
        }
        lemma_find_sub_at(t, pat, i - 1);
    }
}

pub proof fn lemma_find_sub_none(s: Seq<char>, pat: Seq<char>)
    requires
        forall|j: int| 0 <= j && j + pat.len() <= s.len() ==> #[trigger] s.subrange(j, j + pat.len()) != pat,
    ensures
        find_sub(s, pat) is None,
    decreases s.len(),
{
    if pat.len() <= s.len() {
        assert(s.subrange(0, 0 + pat.len() as int) != pat);
        assert(s.subrange(0, pat.len() as int) != pat);
        if s.len() == 0 {
            assert(s.subrange(0, pat.len() as int) =~= pat);
            assert(false);
        }
        let t = s.drop_first();
        assert forall|j: int| 0 <= j && j + pat.len() <= t.len() implies #[trigger] t.subrange(
            j,
            j + pat.len(),
        ) != pat by {
            assert(t.subrange(j, j + pat.len()) =~= s.subrange(j + 1, j + 1 + pat.len()));
        }
        lemma_find_sub_none(t, pat);
    }
}

/// Whether `pat` stands in `s` at position `i`.
fn match_at(s: &str, pat: &str, i: usize) -> (r: bool)
    requires
        i + pat@.len() <= s@.len(),
    ensures
        r == (s@.subrange(i as int, i + pat@.len()) == pat@),
{
    let slen = str_char_len(s);
    let m = str_char_len(pat);
    let mut j: usize = 0;
    while j < m
        invariant
            slen == s@.len(),
            m == pat@.len(),
            i + m <= slen,
            0 <= j <= m,
            forall|t: int| 0 <= t < j ==> s@[i + t] == pat@[t],
        decreases m - j,
    {
        if s.get_char(i + j) != pat.get_char(j) {
            assert(s@.subrange(i as int, i + pat@.len())[j as int] == s@[i + j]);
            return false;
        }
        j = j + 1;
    }
    proof {
        assert(s@.subrange(i as int, i + pat@.len()) =~= pat@);
    }
    true
}

/// `s` with the first occurrence of `pat` removed.
fn remove_first_str(s: &str, pat: &str) -> (r: String)
    ensures
        r@ == remove_first_chars(s@, pat@),
{
    let n = str_char_len(s);
    let m = str_char_len(pat);
    if m > n {
        return s.to_owned();
    }
    if m == 0 {
        proof {
            assert(s@.subrange(0, 0) =~= pat@);
            lemma_find_sub_at(s@, pat@, 0);
            assert(s@.subrange(0, 0) + s@.subrange(0, s@.len() as int) =~= s@);
        }
        return s.to_owned();
    }
    let mut i: usize = 0;
    while i <= n - m
        invariant
            n == s@.len(),
            m == pat@.len(),
            1 <= m <= n,
            0 <= i <= n - m + 1,
            forall|j: int| 0 <= j < i ==> #[trigger] s@.subrange(j, j + pat@.len()) != pat@,
        decreases n - m + 1 - i,
    {
        if match_at(s, pat, i) {
            proof {
                lemma_find_sub_at(s@, pat@, i as int);
            }
            let head = s.substring_char(0, i);
            let tail = s.substring_char(i + m, n);
            let mut out = head.to_owned();
            out.append(tail);
            return out;
        }
        i = i + 1;
    }
    proof {
        assert forall|j: int| 0 <= j && j + pat@.len() <= s@.len() implies #[trigger] s@.subrange(
            j,
            j + pat@.len(),
        ) != pat@ by {
            assert(j < i);
        }
        lemma_find_sub_none(s@, pat@);
    }
    s.to_owned()
}

/// The request host: the CDN override when one is set, else the scheme, the
/// bucket as a subdomain of the endpoint, and the key.
pub open spec fn spec_format_host(
    endpoint: Seq<char>,
    bucket: Seq<char>,
    key: Seq<char>,
    cdn: Option<Seq<char>>,
) -> Seq<char> {
    let k = format_key_chars(key);
    match cdn {
        Some(c) => c + k,
        None => if starts_with(endpoint, "https"@) {
            "https://"@ + bucket + seq!['.'] + remove_first_chars(endpoint, "https://"@) + k
        } else {
            "http://"@ + bucket + seq!['.'] + remove_first_chars(endpoint, "http://"@) + k
        },
    }
}

/// The header entries of an authorized request on `key`: the date, the
/// `OSS <key id>:<signature>` authorization, and the extension headers.
pub open spec fn spec_request_headers(
    oss: OssView,
    key: Seq<char>,
    b: BuilderView,
    date: Seq<char>,
) -> Seq<EntryView> {
    let signed = BuilderView { headers: map_insert(b.headers, "date"@, date), ..b };
    insert_all(
        seq![("Date"@, date), ("Authorization"@, spec_oss_sign(oss, key, signed))],
        b.oss_headers,
    )
}

impl OSS {
    pub fn new(key_id: &str, key_secret: &str, endpoint: &str, bucket: &str) -> (r: Self)
        ensures
            r@.key_id == key_id@,
            r@.key_secret == key_secret@,
            r@.endpoint == endpoint@,
            r@.bucket == bucket@,
    {
        OSS {
            key_id: key_id.to_owned(),
            key_secret: key_secret.to_owned(),
            endpoint: endpoint.to_owned(),
            bucket: bucket.to_owned(),
        }
    }

    pub fn endpoint(&self) -> (r: String)
        ensures
            r@ == self@.endpoint,
    {
        self.endpoint.clone()
    }

    pub fn bucket(&self) -> (r: String)
        ensures
            r@ == self@.bucket,
    {
        self.bucket.clone()
    }

    pub fn key_id(&self) -> (r: String)
        ensures
            r@ == self@.key_id,
    {
        self.key_id.clone()
    }

    pub fn key_secret(&self) -> (r: String)
        ensures
            r@ == self@.key_secret,
    {
        self.key_secret.clone()
    }

    /// The key with a leading slash.
    pub fn format_key(&self, key: &str) -> (r: String)
        ensures
            r@ == format_key_chars(key@),
    {
        if str_starts_with(key, "/") {
            proof {
                reveal_strlit("/");
            }
            key.to_owned()
        } else {
            let mut out = String::new();
            push_char(&mut out, '/');
            out.append(key);
            proof {
                reveal_strlit("/");
                assert(out@ =~= seq!['/'] + key@);
            }
            out
        }
    }

    /// The key with each path segment percent-encoded.
    pub fn key_urlencode(&self, key: &str) -> (r: String)
        ensures
            r@ == key_encoded(key.spec_bytes()),
    {
        encode_key_path(key)
    }

    /// The resource path that enters the canonical string.
    pub fn format_oss_resource_str(&self, bucket: &str, key: &str) -> (r: String)
        ensures
            r@ == resource_chars(bucket@, key@),
    {
        let mut out = String::new();
        push_char(&mut out, '/');
        out.append(bucket);
        if !bucket.is_empty() {
            out.append(key);
            proof {
                assert(out@ =~= seq!['/'] + bucket@ + key@);
            }
        } else {
            proof {
                assert(out@ =~= seq!['/'] + bucket@);
            }
        }
        out
    }

    /// The fully qualified host for a request on `key`.
    pub fn format_host(&self, bucket: &str, key: &str, build: &RequestBuilder) -> (r: String)
        ensures
            r@ == spec_format_host(self@.endpoint, bucket@, key@, build@.cdn),
    {
        let k: String = self.format_key(key);
        match &build.cdn {
            Some(cdn) => {
                let mut out = cdn.clone();
                out.append(k.as_str());
                out
            },
            None => {
                if str_starts_with(self.endpoint.as_str(), "https") {
                    let stripped = remove_first_str(self.endpoint.as_str(), "https://");
                    let mut out = "https://".to_owned();
                    out.append(bucket);
                    push_char(&mut out, '.');
                    out.append(stripped.as_str());
                    out.append(k.as_str());
                    proof {
                        assert(out@ =~= "https://"@ + bucket@ + seq!['.'] + remove_first_chars(
                            self@.endpoint,
                            "https://"@,
                        ) + k@);
                    }
                    out
                } else {
                    let stripped = remove_first_str(self.endpoint.as_str(), "http://");
                    let mut out = "http://".to_owned();
                    out.append(bucket);
                    push_char(&mut out, '.');
                    out.append(stripped.as_str());
                    out.append(k.as_str());
                    proof {
                        assert(out@ =~= "http://"@ + bucket@ + seq!['.'] + remove_first_chars(
                            self@.endpoint,
                            "http://"@,
                        ) + k@);
                    }
                    out
                }
            },
        }
    }

    /// The host and headers of an authorized request on `key`, signed under
    /// `date`: deterministic in all of its inputs.
    pub fn build_request_with_date(&self, key: &str, build: &RequestBuilder, date: &str) -> (r: (
        String,
        StrMap,
    ))
        ensures
            r.0@ == spec_format_host(self@.endpoint, self@.bucket, key@, build@.cdn),
            r.1@ == spec_request_headers(self@, key@, build@, date@),
    {
        let bucket = self.bucket();
        let host = self.format_host(bucket.as_str(), key, build);
        let mut signed = build.duplicate();
        signed.headers.insert("date".to_owned(), date.to_owned());
        proof {
            lemma_map_insert_get(build@.headers, "date"@, date@);
            assert(signed@ == (BuilderView {
                headers: map_insert(build@.headers, "date"@, date@),
                ..build@
            }));
        }
        let authorization = self.oss_sign(key, &signed);
        let mut headers = StrMap::new();
        headers.insert("Date".to_owned(), date.to_owned());
        headers.insert("Authorization".to_owned(), authorization);
        let ghost base: Seq<EntryView> = seq![
            ("Date"@, date@),
            (
                "Authorization"@,
                spec_oss_sign(
                    self@,
                    key@,
                    BuilderView { headers: map_insert(build@.headers, "date"@, date@), ..build@ },
                ),
            ),
        ];
        proof {
            reveal_strlit("Date");
            reveal_strlit("Authorization");
            assert("Date"@.len() == 4);
            assert("Authorization"@.len() == 13);
            let m0 = map_insert(Seq::<EntryView>::empty(), base[0].0, base[0].1);
            assert(m0 =~= seq![base[0]]);
            assert(m0[0].0 != base[1].0);
            assert(m0.drop_first() =~= Seq::<EntryView>::empty());
            assert(map_insert(m0, base[1].0, base[1].1) == seq![m0[0]] + map_insert(
                m0.drop_first(),
                base[1].0,
                base[1].1,
            ));
            assert(headers@ =~= base);
            assert(build@.oss_headers.subrange(0, 0) =~= Seq::<EntryView>::empty());
        }
        let ext = build.oss_headers.to_pairs();
        let en = ext.len();
        let mut i: usize = 0;
        while i < en
            invariant
                en == ext@.len(),
                crate::strmap::pairs_view(ext@) == build@.oss_headers,
                0 <= i <= en,
                headers@ == insert_all(base, build@.oss_headers.subrange(0, i as int)),
            decreases en - i,
        {
            headers.insert(ext[i].0.clone(), ext[i].1.clone());
            proof {
                assert(crate::strmap::pairs_view(ext@)[i as int] == (
                    ext@[i as int].0@,
                    ext@[i as int].1@,
                ));
                assert(build@.oss_headers.subrange(0, i + 1) =~= build@.oss_headers.subrange(
                    0,
                    i as int,
                ).push(build@.oss_headers[i as int]));
                lemma_insert_all_push(
                    base,
                    build@.oss_headers.subrange(0, i as int),
                    build@.oss_headers[i as int],
                );
            }
            i = i + 1;
        }
        proof {
            assert(build@.oss_headers.subrange(0, en as int) =~= build@.oss_headers);
            let signed_view = BuilderView {
                headers: map_insert(build@.headers, "date"@, date@),
                ..build@
            };
            assert(base == seq![
                ("Date"@, date@),
                ("Authorization"@, spec_oss_sign(self@, key@, signed_view)),
            ]);
            assert(spec_request_headers(self@, key@, build@, date@) == insert_all(
                seq![("Date"@, date@), ("Authorization"@, spec_oss_sign(self@, key@, signed_view))],
                build@.oss_headers,
            ));
            assert(headers@ == spec_request_headers(self@, key@, build@, date@));
        }
        (host, headers)
    }

    /// The host and headers of an authorized request on `key`, signed under
    /// the current time.
    pub fn build_request(&self, key: &str, build: &RequestBuilder) -> (r: (String, StrMap))
        ensures
            r.0@ == spec_format_host(self@.endpoint, self@.bucket, key@, build@.cdn),
            exists|date: Seq<char>|
                r.1@ == spec_request_headers(self@, key@, build@, date),
    {
        let date = self.date();
        let r = self.build_request_with_date(key, build, date.as_str());
        proof {
            assert(r.1@ == spec_request_headers(self@, key@, build@, date@));
        }
        r
    }

    /// Relies on chrono's `Utc::now` and `DateTime::format`: the current UTC
    /// time as an HTTP date, `Wed, 21 Oct 2015 07:28:00 GMT` style.  The
    /// result depends on the clock, so nothing is promised of it.
    #[verifier::external_body]
    pub fn date(&self) -> String {
        let now: chrono::DateTime<chrono::Utc> = chrono::Utc::now();
        now.format("%a, %d %b %Y %T GMT").to_string()
    }
}

} // verus!
