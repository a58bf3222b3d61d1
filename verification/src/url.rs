//! Pre-signed URLs: time-limited, credential-free access to one object.

use vstd::prelude::*;
use vstd::string::StringSliceAdditionalSpecFns;
use vstd::utf8::encode_utf8;
use crate::auth::{canonical_string, join_pairs, spec_sign};
use crate::codec::{key_encoded, url_encode, url_encoded};
use crate::oss::{format_key_chars, OssView, OSS};
use crate::request::{BuilderView, RequestBuilder, RequestType};
use crate::strmap::{
    insert_all, lemma_insert_all_push, lemma_map_insert_get, map_insert, pairs_view, sort_entries,
    sort_pairs, EntryView, StrMap,
};
use crate::strutil::{i64_to_string, int_dec_chars, push_char, str_eq};

verus! {

/// The entries of `s` whose key is not `k`, in order.
pub open spec fn drop_key(s: Seq<EntryView>, k: Seq<char>) -> Seq<EntryView>
    decreases s.len(),
{
    if s.len() == 0 {
        s
    } else if s[0].0 == k {
        drop_key(s.drop_first(), k)
    } else {
        seq![s[0]] + drop_key(s.drop_first(), k)
    }
}

pub proof fn lemma_drop_key_push(s: Seq<EntryView>, k: Seq<char>, e: EntryView)
    ensures
        drop_key(s.push(e), k) == if e.0 == k {
            drop_key(s, k)
        } else {
            drop_key(s, k).push(e)
        },
    decreases s.len(),
{
    if s.len() == 0 {
        assert(s.push(e).drop_first() =~= Seq::<EntryView>::empty());
        if e.0 != k {
            assert(seq![e] + drop_key(Seq::<EntryView>::empty(), k) =~= drop_key(
                Seq::<EntryView>::empty(),
                k,
            ).push(e));
        }
    } else {
        lemma_drop_key_push(s.drop_first(), k, e);
        assert(s.push(e).drop_first() =~= s.drop_first().push(e));
        if s[0].0 != k && e.0 != k {
            assert(seq![s[0]] + drop_key(s.drop_first(), k).push(e) =~= (seq![s[0]] + drop_key(
                s.drop_first(),
                k,
            )).push(e));
        }
    }
}

/// No entry under `k` survives `drop_key`.
pub proof fn lemma_drop_key_absent(s: Seq<EntryView>, k: Seq<char>)
    ensures
        forall|i: int| 0 <= i < drop_key(s, k).len() ==> (#[trigger] drop_key(s, k)[i]).0 != k,
    decreases s.len(),
{
    if s.len() > 0 {
        lemma_drop_key_absent(s.drop_first(), k);
        if s[0].0 != k {
            assert forall|i: int| 0 <= i < drop_key(s, k).len() implies (#[trigger] drop_key(
                s,
                k,
            )[i]).0 != k by {
                if i > 0 {
                    assert(drop_key(s, k)[i] == drop_key(s.drop_first(), k)[i - 1]);
                }
            }
        }
    }
}

/// The name of the source-IP access-control parameter, which is signed but
/// never emitted on a URL.
pub open spec fn source_ip_key() -> Seq<char> {
    "x-oss-ac-source-ip"@
}

/// The configuration a pre-signed URL is signed under: the expiry timestamp
/// stands in the `date` header.
pub open spec fn sign_url_builder(b: BuilderView, expires: int) -> BuilderView {
    BuilderView { headers: map_insert(b.headers, "date"@, int_dec_chars(expires)), ..b }
}

/// The query entries of a pre-signed URL: `Expires`, the key id, the
/// url-encoded signature, and every caller parameter url-encoded — except the
/// source-IP parameter, which is signed but left off the URL.
pub open spec fn sign_url_query_entries(
    oss: OssView,
    key: Seq<char>,
    b: BuilderView,
    expires: int,
) -> Seq<EntryView> {
    let fkey = format_key_chars(key);
    let signature = spec_sign(oss, fkey, sign_url_builder(b, expires));
    let base = seq![
        ("Expires"@, int_dec_chars(expires)),
        ("OSSAccessKeyId"@, oss.key_id),
        ("Signature"@, url_encoded(encode_utf8(signature))),
    ];
    let encoded_params = b.parameters.map_values(
        |e: EntryView| (e.0, url_encoded(encode_utf8(e.1))),
    );
    sort_entries(drop_key(insert_all(base, encoded_params), source_ip_key()))
}

/// A pre-signed path and query for `key`, expiring at `expires`.
pub open spec fn spec_sign_url(
    oss: OssView,
    key: Seq<char>,
    b: BuilderView,
    expires: int,
) -> Seq<char> {
    let fkey = format_key_chars(key);
    key_encoded(encode_utf8(fkey)) + seq!['?'] + join_pairs(
        sign_url_query_entries(oss, key, b, expires),
        seq!['='],
        seq!['&'],
    )
}

/// A full pre-signed URL: the CDN override when one is set, else
/// `bucket.endpoint` followed by the signed path and query.
pub open spec fn spec_download_url(
    oss: OssView,
    key: Seq<char>,
    b: BuilderView,
    expires: int,
) -> Seq<char> {
    match b.cdn {
        Some(c) => c + spec_sign_url(oss, key, b, expires),
        None => oss.bucket + seq!['.'] + oss.endpoint + spec_sign_url(oss, key, b, expires),
    }
}

/// An upload URL signs with the PUT verb, whatever the configured method.
pub open spec fn spec_upload_url(
    oss: OssView,
    key: Seq<char>,
    b: BuilderView,
    expires: int,
) -> Seq<char> {
    spec_download_url(oss, key, BuilderView { method: RequestType::Put, ..b }, expires)
}

/// Pre-signed URLs are deterministic: one credential set, key, configuration
/// and expiry timestamp give one signed query string and one URL, byte for
/// byte.
pub proof fn lemma_sign_url_deterministic(
    oss1: OssView,
    oss2: OssView,
    key1: Seq<char>,
    key2: Seq<char>,
    b1: BuilderView,
    b2: BuilderView,
    expires1: int,
    expires2: int,
)
    requires
        oss1 == oss2,
        key1 == key2,
        b1 == b2,
        expires1 == expires2,
    ensures
        spec_sign_url(oss1, key1, b1, expires1) == spec_sign_url(oss2, key2, b2, expires2),
        spec_download_url(oss1, key1, b1, expires1) == spec_download_url(oss2, key2, b2, expires2),
        spec_upload_url(oss1, key1, b1, expires1) == spec_upload_url(oss2, key2, b2, expires2),
{
}

/// The source-IP access-control parameter never reaches the emitted query
/// string: no query entry of a pre-signed URL carries its name, whatever the
/// configuration holds.
pub proof fn lemma_source_ip_absent_from_url(
    oss: OssView,
    key: Seq<char>,
    b: BuilderView,
    expires: int,
)
    ensures
        forall|i: int|
            0 <= i < sign_url_query_entries(oss, key, b, expires).len() ==> (
            #[trigger] sign_url_query_entries(oss, key, b, expires)[i]).0 != source_ip_key(),
{
    broadcast use vstd::seq_lib::group_to_multiset_ensures;

    let fkey = format_key_chars(key);
    let signature = spec_sign(oss, fkey, sign_url_builder(b, expires));
    let base = seq![
        ("Expires"@, int_dec_chars(expires)),
        ("OSSAccessKeyId"@, oss.key_id),
        ("Signature"@, url_encoded(encode_utf8(signature))),
    ];
    let encoded_params = b.parameters.map_values(
        |e: EntryView| (e.0, url_encoded(encode_utf8(e.1))),
    );
    let pre = drop_key(insert_all(base, encoded_params), source_ip_key());
    let entries = sign_url_query_entries(oss, key, b, expires);
    lemma_drop_key_absent(insert_all(base, encoded_params), source_ip_key());
    crate::strmap::lemma_sort_entries_multiset(pre);
    assert forall|i: int| 0 <= i < entries.len() implies (#[trigger] entries[i]).0
        != source_ip_key() by {
        let x = entries[i];
        assert(entries.contains(x));
        assert(entries.to_multiset().count(x) > 0);
        assert(pre.to_multiset().count(x) > 0);
        assert(pre.contains(x));
        let j = choose|j: int| 0 <= j < pre.len() && pre[j] == x;
        assert(pre[j].0 != source_ip_key());
    }
}

/// Setting the source-IP access-control parameter changes the canonical
/// string that a pre-signed URL signs: the parameter takes part in the
/// signature even though it is left off the URL.
pub proof fn lemma_source_ip_signed(
    oss: OssView,
    key: Seq<char>,
    b: BuilderView,
    v: Seq<char>,
    expires: int,
)
    requires
        !crate::strmap::map_has_key(b.parameters, source_ip_key()),
    ensures
        ({
            let with_ip = BuilderView {
                parameters: map_insert(b.parameters, source_ip_key(), v),
                ..b
            };
            canonical_string(oss, key, sign_url_builder(with_ip, expires)) != canonical_string(
                oss,
                key,
                sign_url_builder(b, expires),
            )
        }),
{
    let with_ip = BuilderView { parameters: map_insert(b.parameters, source_ip_key(), v), ..b };
    let sb1 = sign_url_builder(b, expires);
    let sb2 = sign_url_builder(with_ip, expires);
    let p1 = b.parameters;
    let p2 = map_insert(p1, source_ip_key(), v);
    crate::strmap::lemma_map_insert_len(p1, source_ip_key(), v);
    crate::strmap::lemma_sort_entries_len(p1);
    crate::strmap::lemma_sort_entries_len(p2);
    crate::strmap::lemma_text_len_sort(p1);
    crate::strmap::lemma_text_len_sort(p2);
    crate::strmap::lemma_no_key_entries(p1, source_ip_key());
    crate::strmap::lemma_map_insert_append(p1, source_ip_key(), v);
    crate::strmap::lemma_text_len_push(p1, (source_ip_key(), v));
    lemma_map_insert_get(b.headers, "date"@, int_dec_chars(expires));
    let r1 = crate::auth::canonical_resource(oss.bucket, key, p1);
    let r2 = crate::auth::canonical_resource(oss.bucket, key, p2);
    assert(r1.len() < r2.len()) by {
        crate::auth::lemma_join_pairs_len(sort_entries(p2), seq!['='], seq!['&']);
        if p1.len() > 0 {
            crate::auth::lemma_join_pairs_len(sort_entries(p1), seq!['='], seq!['&']);
        }
    }
    assert(canonical_string(oss, key, sb1).len() != canonical_string(oss, key, sb2).len());
}
pub open spec fn clock_secs_bounds(now: int) -> bool {
    -10_000_000_000_000 <= now <= 10_000_000_000_000
}

/// Relies on chrono's `Local::now` and `DateTime::timestamp`: the current
/// time as Unix seconds.  The value depends on the clock; chrono represents
/// dates within about ±262,000 years, so the value stays in narrow bounds.
#[verifier::external_body]
fn now_unix() -> (r: i64)
    ensures
        clock_secs_bounds(r as int),
{
    chrono::Local::now().timestamp()
}

impl OSS {
    /// The signed path and query for `key`, expiring at the Unix timestamp
    /// `expires`: deterministic in all of its inputs.
    pub fn sign_url_at(&self, key: &str, build: &RequestBuilder, expires: i64) -> (r: String)
        ensures
            r@ == spec_sign_url(self@, key@, build@, expires as int),
    {
        let fkey = self.format_key(key);
        let ts = i64_to_string(expires);
        let mut signed = build.duplicate();
        signed.headers.insert("date".to_owned(), ts.clone());
        proof {
            lemma_map_insert_get(build@.headers, "date"@, int_dec_chars(expires as int));
            assert(signed@ == sign_url_builder(build@, expires as int));
        }
        let signature = self.sign(fkey.as_str(), &signed);
        let mut query = StrMap::new();
        query.insert("Expires".to_owned(), ts);
        query.insert("OSSAccessKeyId".to_owned(), self.key_id());
        query.insert("Signature".to_owned(), url_encode(signature.as_str()));
        let ghost base: Seq<EntryView> = seq![
            ("Expires"@, int_dec_chars(expires as int)),
            ("OSSAccessKeyId"@, self@.key_id),
            (
                "Signature"@,
                url_encoded(encode_utf8(spec_sign(self@, fkey@, sign_url_builder(build@, expires as int)))),
            ),
        ];
        proof {
            reveal_strlit("Expires");
            reveal_strlit("OSSAccessKeyId");
            reveal_strlit("Signature");
            assert("Expires"@.len() == 7);
            assert("OSSAccessKeyId"@.len() == 14);
            assert("Signature"@.len() == 9);
            let e0: EntryView = ("Expires"@, int_dec_chars(expires as int));
            let e1: EntryView = ("OSSAccessKeyId"@, self@.key_id);
            let e2: EntryView = ("Signature"@, url_encoded(encode_utf8(signature@)));
            let m0 = map_insert(Seq::<EntryView>::empty(), e0.0, e0.1);
            assert(m0 =~= seq![e0]);
            let m1 = map_insert(m0, e1.0, e1.1);
            assert(m1 =~= seq![e0, e1]) by {
                assert(m0[0].0 != e1.0);
                assert(m0.drop_first() =~= Seq::<EntryView>::empty());
                assert(m1 == seq![m0[0]] + map_insert(m0.drop_first(), e1.0, e1.1));
            }
            let m2 = map_insert(m1, e2.0, e2.1);
            assert(m2 =~= seq![e0, e1, e2]) by {
                assert(m1[0].0 != e2.0 && m1[1].0 != e2.0);
                assert(m1.drop_first() =~= seq![e1]);
                assert(map_insert(seq![e1], e2.0, e2.1) =~= seq![e1, e2]) by {
                    assert(seq![e1].drop_first() =~= Seq::<EntryView>::empty());
                    assert(map_insert(seq![e1], e2.0, e2.1) == seq![e1] + map_insert(
                        seq![e1].drop_first(),
                        e2.0,
                        e2.1,
                    ));
                }
                assert(m2 == seq![m1[0]] + map_insert(m1.drop_first(), e2.0, e2.1));
            }
            assert(query@ =~= base);
        }
        let ghost encoded_params = build@.parameters.map_values(
            |e: EntryView| (e.0, url_encoded(encode_utf8(e.1))),
        );
        let params = build.parameters.to_pairs();
        let pn = params.len();
        proof {
            assert(encoded_params.subrange(0, 0) =~= Seq::<EntryView>::empty());
            assert(query@ == insert_all(base, encoded_params.subrange(0, 0)));
        }
        let mut i: usize = 0;
        while i < pn
            invariant
                pn == params@.len(),
                pairs_view(params@) == build@.parameters,
                encoded_params == build@.parameters.map_values(
                    |e: EntryView| (e.0, url_encoded(encode_utf8(e.1))),
                ),
                0 <= i <= pn,
                query@ == insert_all(base, encoded_params.subrange(0, i as int)),
            decreases pn - i,
        {
            let enc = url_encode(params[i].1.as_str());
            query.insert(params[i].0.clone(), enc);
            proof {
                assert(pairs_view(params@)[i as int] == (params@[i as int].0@, params@[i as int].1@));
                assert(encoded_params[i as int] == (
                    build@.parameters[i as int].0,
                    url_encoded(encode_utf8(build@.parameters[i as int].1)),
                ));
                assert(encoded_params.subrange(0, i + 1) =~= encoded_params.subrange(
                    0,
                    i as int,
                ).push(encoded_params[i as int]));
                lemma_insert_all_push(base, encoded_params.subrange(0, i as int), encoded_params[i as int]);
            }
            i = i + 1;
        }
        proof {
            assert(encoded_params.subrange(0, pn as int) =~= encoded_params) by {
                assert(encoded_params.len() == build@.parameters.len());
            }
        }
        // the source-IP access-control parameter is signed but never emitted
        let all = query.to_pairs();
        let an = all.len();
        let mut kept: Vec<(String, String)> = Vec::new();
        proof {
            assert(pairs_view(all@).subrange(0, 0) =~= Seq::<EntryView>::empty());
            assert(drop_key(Seq::<EntryView>::empty(), source_ip_key())
                == Seq::<EntryView>::empty());
            assert(pairs_view(kept@) =~= Seq::<EntryView>::empty());
        }
        let mut j: usize = 0;
        while j < an
            invariant
                an == all@.len(),
                pairs_view(all@) == insert_all(base, encoded_params),
                0 <= j <= an,
                pairs_view(kept@) == drop_key(
                    pairs_view(all@).subrange(0, j as int),
                    source_ip_key(),
                ),
            decreases an - j,
        {
            let ghost prev = pairs_view(all@).subrange(0, j as int);
            let ghost e = pairs_view(all@)[j as int];
            proof {
                assert(e == (all@[j as int].0@, all@[j as int].1@));
                assert(pairs_view(all@).subrange(0, j + 1) =~= prev.push(e));
                lemma_drop_key_push(prev, source_ip_key(), e);
            }
            if !str_eq(all[j].0.as_str(), "x-oss-ac-source-ip") {
                let ghost prev_kept = pairs_view(kept@);
                kept.push((all[j].0.clone(), all[j].1.clone()));
                proof {
                    assert(prev_kept.len() == kept@.len() - 1) by {
                        assert(pairs_view(kept@.drop_last()) =~= prev_kept) by {
                            assert(kept@.drop_last() =~= kept@.subrange(0, kept@.len() - 1));
                            assert forall|t: int| 0 <= t < kept@.len() - 1 implies pairs_view(
                                kept@.drop_last(),
                            )[t] == prev_kept[t] by {
                                assert(pairs_view(kept@.drop_last())[t] == (
                                    kept@[t].0@,
                                    kept@[t].1@,
                                ));
                            }
                        }
                    }
                    assert(pairs_view(kept@) =~= prev_kept.push(e)) by {
                        assert forall|t: int| 0 <= t < kept@.len() implies pairs_view(kept@)[t]
                            == prev_kept.push(e)[t] by {
                            assert(pairs_view(kept@)[t] == (kept@[t].0@, kept@[t].1@));
                            if t < kept@.len() - 1 {
                                assert(pairs_view(kept@.drop_last())[t] == (
                                    kept@[t].0@,
                                    kept@[t].1@,
                                ));
                            }
                        }
                    }
                }
            }
            j = j + 1;
        }
        proof {
            assert(pairs_view(all@).subrange(0, an as int) =~= pairs_view(all@));
        }
        let sorted = sort_pairs(&kept);
        let joined = crate::auth::join_pairs_exec(&sorted, '=', '&');
        let mut out = self.key_urlencode(fkey.as_str());
        push_char(&mut out, '?');
        out.append(joined.as_str());
        proof {
            assert(out@ =~= spec_sign_url(self@, key@, build@, expires as int));
        }
        out
    }

    /// The signed path and query for `key`, expiring `build.expire` seconds
    /// from now.
    pub fn sign_url(&self, key: &str, build: &RequestBuilder) -> (r: String)
        requires
            -4_000_000_000_000_000_000 <= build@.expire <= 4_000_000_000_000_000_000,
        ensures
            exists|now: int|
                clock_secs_bounds(now) && r@ == spec_sign_url(
                    self@,
                    key@,
                    build@,
                    now + build@.expire,
                ),
    {
        let now = now_unix();
        let expires = now + build.expire;
        self.sign_url_at(key, build, expires)
    }

    /// A full download URL for `key`, expiring at `expires`.
    pub fn sign_download_url_at(&self, key: &str, build: &RequestBuilder, expires: i64) -> (r:
        String)
        ensures
            r@ == spec_download_url(self@, key@, build@, expires as int),
    {
        let signed = self.sign_url_at(key, build, expires);
        match &build.cdn {
            Some(cdn) => {
                let mut out = cdn.clone();
                out.append(signed.as_str());
                out
            },
            None => {
                let mut out = self.bucket();
                push_char(&mut out, '.');
                let ep = self.endpoint();
                out.append(ep.as_str());
                out.append(signed.as_str());
                proof {
                    assert(out@ =~= spec_download_url(self@, key@, build@, expires as int));
                }
                out
            },
        }
    }

    /// A full download URL for `key`, expiring `build.expire` seconds from
    /// now.
    pub fn sign_download_url(&self, key: &str, build: &RequestBuilder) -> (r: String)
        requires
            -4_000_000_000_000_000_000 <= build@.expire <= 4_000_000_000_000_000_000,
        ensures
            exists|now: int|
                clock_secs_bounds(now) && r@ == spec_download_url(
                    self@,
                    key@,
                    build@,
                    now + build@.expire,
                ),
    {
        let now = now_unix();
        let expires = now + build.expire;
        self.sign_download_url_at(key, build, expires)
    }

    /// A full upload URL for `key`, expiring at `expires`: the PUT verb is
    /// signed whatever the configured method.
    pub fn sign_upload_url_at(&self, key: &str, build: &RequestBuilder, expires: i64) -> (r:
        String)
        ensures
            r@ == spec_upload_url(self@, key@, build@, expires as int),
    {
        let put_build = build.duplicate().with_method(RequestType::Put);
        self.sign_download_url_at(key, &put_build, expires)
    }

    /// A full upload URL for `key`, expiring `build.expire` seconds from now.
    pub fn sign_upload_url(&self, key: &str, build: &RequestBuilder) -> (r: String)
        requires
            -4_000_000_000_000_000_000 <= build@.expire <= 4_000_000_000_000_000_000,
        ensures
            exists|now: int|
                clock_secs_bounds(now) && r@ == spec_upload_url(
                    self@,
                    key@,
                    build@,
                    now + build@.expire,
                ),
    {
        let now = now_unix();
        let expires = now + build.expire;
        self.sign_upload_url_at(key, build, expires)
    }
}

} // verus!
