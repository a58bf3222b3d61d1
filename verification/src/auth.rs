//! The canonical signing string and the HMAC-SHA1 signer.

use vstd::prelude::*;
use hmac::{KeyInit, Mac};
use crate::oss::{resource_chars, OssView, OSS};
use crate::request::{method_chars, BuilderView, RequestBuilder};
use vstd::relations::sorted_by;
use crate::strmap::{
    entry_le_fn, insert_sorted, lemma_sort_entries_permutation, lemma_sort_entries_sorted, map_get,
    map_has_key, pairs_view, sort_entries, sort_pairs, EntryView,
};
use crate::strutil::{lower_of, push_char, to_lowercase};
use crate::util::{base64_encode, base64_of};

verus! {

/// Entries joined as `key<mid>value`, separated by `sep`.
pub open spec fn join_pairs(s: Seq<EntryView>, mid: Seq<char>, sep: Seq<char>) -> Seq<char>
    decreases s.len(),
{
    if s.len() == 0 {
        Seq::<char>::empty()
    } else if s.len() == 1 {
        s[0].0 + mid + s[0].1
    } else {
        s[0].0 + mid + s[0].1 + sep + join_pairs(s.drop_first(), mid, sep)
    }
}

/// Extension headers with their keys lowercased.
pub open spec fn lowered(s: Seq<EntryView>) -> Seq<EntryView> {
    s.map_values(|e: EntryView| (lower_of(e.0), e.1))
}

/// The extension-header block of the canonical string: keys lowercased,
/// entries sorted, joined as `key:value` with newlines.  With exactly one
/// header a trailing newline is appended; with zero or with two or more
/// headers it is not.
pub open spec fn canonical_oss_headers(oss_headers: Seq<EntryView>) -> Seq<char> {
    let joined = join_pairs(sort_entries(lowered(oss_headers)), seq![':'], seq!['\n']);
    if oss_headers.len() == 1 {
        joined + seq!['\n']
    } else {
        joined
    }
}

/// The resource part of the canonical string: the resource path, and the
/// query parameters sorted and joined as `key=value` with `&`, unencoded.
pub open spec fn canonical_resource(
    bucket: Seq<char>,
    key: Seq<char>,
    params: Seq<EntryView>,
) -> Seq<char> {
    let base = resource_chars(bucket, key);
    if params.len() > 0 {
        base + seq!['?'] + join_pairs(sort_entries(params), seq!['='], seq!['&'])
    } else {
        base
    }
}

/// The exact string that is signed:
/// `VERB \n Content-MD5 \n Content-Type \n Date \n headers resource`.
pub open spec fn canonical_string(oss: OssView, key: Seq<char>, b: BuilderView) -> Seq<char>
    recommends
        map_has_key(b.headers, "date"@),
{
    let date = match map_get(b.headers, "date"@) {
        Some(d) => d,
        None => Seq::<char>::empty(),
    };
    let md5 = match b.content_md5 {
        Some(s) => s,
        None => Seq::<char>::empty(),
    };
    let ctype = match b.content_type {
        Some(s) => s,
        None => Seq::<char>::empty(),
    };
    method_chars(b.method) + seq!['\n'] + md5 + seq!['\n'] + ctype + seq!['\n'] + date + seq!['\n']
        + canonical_oss_headers(b.oss_headers) + canonical_resource(oss.bucket, key, b.parameters)
}

/// Name for the HMAC-SHA1 digest over the UTF-8 bytes of a key and a
/// message: it depends on the two texts alone.
pub uninterp spec fn hmac_sha1_of(secret: Seq<char>, msg: Seq<char>) -> Seq<u8>;

/// Relies on hmac's `Hmac` over sha1's `Sha1`: a 20-byte digest keyed by the
/// UTF-8 bytes of `secret`, over the UTF-8 bytes of `msg`.  `new_from_slice`
/// accepts keys of any length.
#[verifier::external_body]
pub(crate) fn hmac_sha1(secret: &str, msg: &str) -> (r: Vec<u8>)
    ensures
        r@ == hmac_sha1_of(secret@, msg@),
        r@.len() == 20,
{
    let mut mac: hmac::Hmac<sha1::Sha1> = hmac::Hmac::new_from_slice(secret.as_bytes()).unwrap();
    mac.update(msg.as_bytes());
    mac.finalize().into_bytes().to_vec()
}

/// The signature of a request: base64 of the HMAC-SHA1 of its canonical
/// string, keyed by the account secret.
pub open spec fn spec_sign(oss: OssView, key: Seq<char>, b: BuilderView) -> Seq<char> {
    base64_of(hmac_sha1_of(oss.key_secret, canonical_string(oss, key, b)))
}

/// An Authorization header value: `OSS <key id>:<signature>`.
pub open spec fn spec_oss_sign(oss: OssView, key: Seq<char>, b: BuilderView) -> Seq<char> {
    "OSS "@ + oss.key_id + seq![':'] + spec_sign(oss, key, b)
}

/// The signature is deterministic: one credential set, key, configuration
/// and date give one signature and one header value, byte for byte.
pub proof fn lemma_sign_deterministic(
    oss1: OssView,
    oss2: OssView,
    key1: Seq<char>,
    key2: Seq<char>,
    b1: BuilderView,
    b2: BuilderView,
)
    requires
        oss1 == oss2,
        key1 == key2,
        b1 == b2,
    ensures
        spec_sign(oss1, key1, b1) == spec_sign(oss2, key2, b2),
        spec_oss_sign(oss1, key1, b1) == spec_oss_sign(oss2, key2, b2),
{
}

/// The one-header quirk: with no extension header the canonical header block
/// is empty and ends in no newline; with exactly one it is `key:value` and a
/// trailing newline; with two or more the entries are newline-joined and no
/// trailing newline is appended.
pub proof fn lemma_one_header_newline_quirk(hs: Seq<EntryView>)
    ensures
        hs.len() == 0 ==> canonical_oss_headers(hs) == Seq::<char>::empty(),
        hs.len() == 1 ==> canonical_oss_headers(hs) == lower_of(hs[0].0) + seq![':'] + hs[0].1
            + seq!['\n'],
        hs.len() >= 2 ==> canonical_oss_headers(hs) == join_pairs(
            sort_entries(lowered(hs)),
            seq![':'],
            seq!['\n'],
        ),
{
    if hs.len() == 0 {
        assert(lowered(hs) =~= Seq::<EntryView>::empty());
        assert(canonical_oss_headers(hs) =~= Seq::<char>::empty());
    } else if hs.len() == 1 {
        let e: EntryView = (lower_of(hs[0].0), hs[0].1);
        assert(lowered(hs) =~= seq![e]);
        assert(seq![e].drop_last() =~= Seq::<EntryView>::empty());
        assert(sort_entries(seq![e]) == insert_sorted(e, sort_entries(seq![e].drop_last())));
        assert(sort_entries(seq![e]) =~= seq![e]);
        assert(join_pairs(seq![e], seq![':'], seq!['\n']) == e.0 + seq![':'] + e.1);
    }
}

/// Sorting decides the canonical order: whatever order parameters and
/// extension headers were inserted in, two configurations holding the same
/// entries yield the same canonical string, and the entries enter it in
/// lexicographic order.
pub proof fn lemma_canonical_order_insertion_independent(
    oss: OssView,
    key: Seq<char>,
    b1: BuilderView,
    b2: BuilderView,
)
    requires
        b2 == (BuilderView { parameters: b2.parameters, oss_headers: b2.oss_headers, ..b1 }),
        b1.parameters.to_multiset() == b2.parameters.to_multiset(),
        lowered(b1.oss_headers).to_multiset() == lowered(b2.oss_headers).to_multiset(),
    ensures
        canonical_string(oss, key, b1) == canonical_string(oss, key, b2),
        sorted_by(sort_entries(lowered(b1.oss_headers)), entry_le_fn()),
        sorted_by(sort_entries(b1.parameters), entry_le_fn()),
{
    lemma_sort_entries_permutation(b1.parameters, b2.parameters);
    lemma_sort_entries_permutation(lowered(b1.oss_headers), lowered(b2.oss_headers));
    lemma_sort_entries_sorted(lowered(b1.oss_headers));
    lemma_sort_entries_sorted(b1.parameters);
    assert(b1.parameters.len() == b2.parameters.len()) by {
        broadcast use vstd::seq_lib::group_to_multiset_ensures;

        assert(b1.parameters.to_multiset().len() == b1.parameters.len());
        assert(b2.parameters.to_multiset().len() == b2.parameters.len());
    }
    assert(b1.oss_headers.len() == b2.oss_headers.len()) by {
        broadcast use vstd::seq_lib::group_to_multiset_ensures;

        assert(lowered(b1.oss_headers).to_multiset().len() == lowered(b1.oss_headers).len());
        assert(lowered(b2.oss_headers).to_multiset().len() == lowered(b2.oss_headers).len());
        assert(lowered(b1.oss_headers).len() == b1.oss_headers.len());
        assert(lowered(b2.oss_headers).len() == b2.oss_headers.len());
    }
}

/// The length of a joined run with one-character `mid` and `sep`: the
/// entries' own text plus two characters per entry, less the missing final
/// separator.
pub proof fn lemma_join_pairs_len(s: Seq<EntryView>, mid: Seq<char>, sep: Seq<char>)
    requires
        s.len() >= 1,
        mid.len() == 1,
        sep.len() == 1,
    ensures
        join_pairs(s, mid, sep).len() == crate::strmap::entries_text_len(s) + 2 * s.len() - 1,
    decreases s.len(),
{
    if s.len() == 1 {
        assert(s.drop_first().len() == 0);
        assert(crate::strmap::entries_text_len(s.drop_first()) == 0);
    } else {
        lemma_join_pairs_len(s.drop_first(), mid, sep);
    }
}

/// Appending an entry to a joined run appends a separator (when the run is
/// not empty) and the entry's own `key<mid>value` text.
proof fn lemma_join_push(t: Seq<EntryView>, e: EntryView, mid: Seq<char>, sep: Seq<char>)
    ensures
        join_pairs(t.push(e), mid, sep) == if t.len() == 0 {
            e.0 + mid + e.1
        } else {
            join_pairs(t, mid, sep) + sep + (e.0 + mid + e.1)
        },
    decreases t.len(),
{
    let s = t.push(e);
    if t.len() == 0 {
        assert(s.len() == 1);
        assert(s[0] == e);
        assert(join_pairs(s, mid, sep) =~= e.0 + mid + e.1);
    } else if t.len() == 1 {
        assert(s.len() == 2);
        assert(s[0] == t[0]);
        assert(s.drop_first() =~= seq![e]);
        assert(join_pairs(seq![e], mid, sep) == e.0 + mid + e.1);
        assert(join_pairs(s, mid, sep) =~= join_pairs(t, mid, sep) + sep + (e.0 + mid + e.1));
    } else {
        lemma_join_push(t.drop_first(), e, mid, sep);
        assert(s.drop_first() =~= t.drop_first().push(e));
        assert(join_pairs(s, mid, sep) == s[0].0 + mid + s[0].1 + sep + join_pairs(
            s.drop_first(),
            mid,
            sep,
        ));
        assert(join_pairs(s, mid, sep) =~= join_pairs(t, mid, sep) + sep + (e.0 + mid + e.1));
    }
}

/// Joins sorted string pairs as `key<mid>value` with `sep` between entries.
pub(crate) fn join_pairs_exec(pairs: &Vec<(String, String)>, mid: char, sep: char) -> (r: String)
    ensures
        r@ == join_pairs(pairs_view(pairs@), seq![mid], seq![sep]),
{
    let mut out = String::new();
    let n = pairs.len();
    proof {
        assert(pairs_view(pairs@).subrange(0, 0) =~= Seq::<EntryView>::empty());
        assert(out@ =~= join_pairs(pairs_view(pairs@).subrange(0, 0), seq![mid], seq![sep]));
    }
    let mut i: usize = 0;
    while i < n
        invariant
            n == pairs@.len(),
            0 <= i <= n,
            out@ == join_pairs(pairs_view(pairs@).subrange(0, i as int), seq![mid], seq![sep]),
        decreases n - i,
    {
        let ghost prefix = pairs_view(pairs@).subrange(0, i as int);
        let ghost e: EntryView = (pairs@[i as int].0@, pairs@[i as int].1@);
        if i > 0 {
            push_char(&mut out, sep);
        }
        out.append(pairs[i].0.as_str());
        push_char(&mut out, mid);
        out.append(pairs[i].1.as_str());
        proof {
            assert(pairs_view(pairs@)[i as int] == e);
            assert(pairs_view(pairs@).subrange(0, i + 1) =~= prefix.push(e));
            lemma_join_push(prefix, e, seq![mid], seq![sep]);
            if i == 0 {
                assert(out@ =~= e.0 + seq![mid] + e.1);
            } else {
                assert(out@ =~= join_pairs(prefix, seq![mid], seq![sep]) + seq![sep] + (e.0 + seq![
                    mid,
                ] + e.1));
            }
        }
        i = i + 1;
    }
    proof {
        assert(pairs_view(pairs@).subrange(0, n as int) =~= pairs_view(pairs@));
    }
    out
}

impl OSS {
    /// The signature for `key` under this configuration.  The configuration
    /// must carry the date to sign under its `date` header.
    pub fn sign(&self, key: &str, build: &RequestBuilder) -> (r: String)
        requires
            map_has_key(build@.headers, "date"@),
        ensures
            r@ == spec_sign(self@, key@, build@),
    {
        let date: String = match build.headers.get("date") {
            Some(d) => d.clone(),
            None => {
                proof {
                    assert(false);
                }
                String::new()
            },
        };
        // extension headers: lowercase the keys, sort, join
        let raw_headers = build.oss_headers.to_pairs();
        let mut lowered_pairs: Vec<(String, String)> = Vec::new();
        let hn = raw_headers.len();
        proof {
            assert(lowered(build@.oss_headers).subrange(0, 0) =~= Seq::<EntryView>::empty());
            assert(pairs_view(lowered_pairs@) =~= lowered(build@.oss_headers).subrange(0, 0));
        }
        let mut i: usize = 0;
        while i < hn
            invariant
                hn == raw_headers@.len(),
                pairs_view(raw_headers@) == build@.oss_headers,
                0 <= i <= hn,
                pairs_view(lowered_pairs@) == lowered(build@.oss_headers).subrange(0, i as int),
            decreases hn - i,
        {
            let ghost prev = lowered_pairs@;
            let lk = to_lowercase(raw_headers[i].0.as_str());
            lowered_pairs.push((lk, raw_headers[i].1.clone()));
            proof {
                assert(pairs_view(raw_headers@)[i as int] == (
                    raw_headers@[i as int].0@,
                    raw_headers@[i as int].1@,
                ));
                assert(lowered(build@.oss_headers)[i as int] == (
                    lower_of(build@.oss_headers[i as int].0),
                    build@.oss_headers[i as int].1,
                ));
                assert(prev.len() == i) by {
                    assert(pairs_view(prev).len() == prev.len());
                }
                assert forall|j: int| 0 <= j < i + 1 implies pairs_view(lowered_pairs@)[j]
                    == lowered(build@.oss_headers).subrange(0, i + 1)[j] by {
                    assert(pairs_view(lowered_pairs@)[j] == (
                        lowered_pairs@[j].0@,
                        lowered_pairs@[j].1@,
                    ));
                    if j < i {
                        assert(lowered_pairs@[j] == prev[j]);
                        assert(pairs_view(prev)[j] == (prev[j].0@, prev[j].1@));
                        assert(pairs_view(prev)[j] == lowered(build@.oss_headers).subrange(
                            0,
                            i as int,
                        )[j]);
                    }
                }
                assert(pairs_view(lowered_pairs@) =~= lowered(build@.oss_headers).subrange(
                    0,
                    i + 1,
                ));
            }
            i = i + 1;
        }
        proof {
            assert(lowered(build@.oss_headers).subrange(0, hn as int) =~= lowered(
                build@.oss_headers,
            )) by {
                assert(lowered(build@.oss_headers).len() == build@.oss_headers.len());
            }
        }
        let sorted_headers = sort_pairs(&lowered_pairs);
        let mut canonical_headers = join_pairs_exec(&sorted_headers, ':', '\n');
        if build.oss_headers.len() == 1 {
            push_char(&mut canonical_headers, '\n');
        }
        proof {
            assert(canonical_headers@ == canonical_oss_headers(build@.oss_headers));
        }
        // resource path and query
        let bucket = self.bucket();
        let mut resource = self.format_oss_resource_str(bucket.as_str(), key);
        if build.parameters.len() > 0 {
            let params = build.parameters.to_pairs();
            let sorted_params = sort_pairs(&params);
            let joined = join_pairs_exec(&sorted_params, '=', '&');
            push_char(&mut resource, '?');
            resource.append(joined.as_str());
            proof {
                assert(resource@ =~= canonical_resource(self@.bucket, key@, build@.parameters));
            }
        }
        proof {
            assert(resource@ == canonical_resource(self@.bucket, key@, build@.parameters));
        }
        // the canonical string
        let verb = build.method.as_str();
        let mut canonical = verb.to_owned();
        push_char(&mut canonical, '\n');
        match &build.content_md5 {
            Some(s) => canonical.append(s.as_str()),
            None => (),
        }
        push_char(&mut canonical, '\n');
        match &build.content_type {
            Some(s) => canonical.append(s.as_str()),
            None => (),
        }
        push_char(&mut canonical, '\n');
        canonical.append(date.as_str());
        push_char(&mut canonical, '\n');
        canonical.append(canonical_headers.as_str());
        canonical.append(resource.as_str());
        proof {
            assert(canonical@ =~= canonical_string(self@, key@, build@));
        }
        // sign it
        let secret = self.key_secret();
        let digest = hmac_sha1(secret.as_str(), canonical.as_str());
        base64_encode(digest.as_slice())
    }

    /// The Authorization header value: `OSS <key id>:<signature>`.
    pub fn oss_sign(&self, key: &str, build: &RequestBuilder) -> (r: String)
        requires
            map_has_key(build@.headers, "date"@),
        ensures
            r@ == spec_oss_sign(self@, key@, build@),
    {
        let signature = self.sign(key, build);
        let key_id = self.key_id();
        let mut out = "OSS ".to_owned();
        out.append(key_id.as_str());
        push_char(&mut out, ':');
        out.append(signature.as_str());
        proof {
            assert(out@ =~= spec_oss_sign(self@, key@, build@));
        }
        out
    }
}

} // verus!
