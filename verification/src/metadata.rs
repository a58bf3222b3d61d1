//! Object metadata parsed from response headers: standard entries in one
//! map, provider user metadata (prefix `x-oss-meta-`) in another.

use vstd::prelude::*;
use crate::strmap::{map_get, map_insert, pairs_view, EntryView, StrMap};
use crate::strutil::{dec_chars, starts_with, str_char_len, str_eq, str_starts_with, u64_to_string};

verus! {

/// The number of leading characters of `s` equal to `c`.
pub open spec fn count_leading(s: Seq<char>, c: char) -> int
    decreases s.len(),
{
    if s.len() == 0 || s[0] != c {
        0
    } else {
        1 + count_leading(s.drop_first(), c)
    }
}

/// The number of trailing characters of `s` equal to `c`.
pub open spec fn count_trailing(s: Seq<char>, c: char) -> int
    decreases s.len(),
{
    if s.len() == 0 || s[s.len() - 1] != c {
        0
    } else {
        1 + count_trailing(s.drop_last(), c)
    }
}

/// `s` without its leading and trailing runs of `c`.
pub open spec fn trim_char(s: Seq<char>, c: char) -> Seq<char> {
    let rest = s.skip(count_leading(s, c));
    rest.take(rest.len() - count_trailing(rest, c))
}

proof fn lemma_count_leading_bounds(s: Seq<char>, c: char)
    ensures
        0 <= count_leading(s, c) <= s.len(),
        forall|i: int| 0 <= i < count_leading(s, c) ==> s[i] == c,
        count_leading(s, c) < s.len() ==> s[count_leading(s, c)] != c,
    decreases s.len(),
{
    if s.len() > 0 && s[0] == c {
        lemma_count_leading_bounds(s.drop_first(), c);
        assert forall|i: int| 0 <= i < count_leading(s, c) implies s[i] == c by {
            if i > 0 {
                assert(s.drop_first()[i - 1] == c);
                assert(s.drop_first()[i - 1] == s[i]);
            }
        }
    }
}

proof fn lemma_count_trailing_bounds(s: Seq<char>, c: char)
    ensures
        0 <= count_trailing(s, c) <= s.len(),
        forall|i: int| s.len() - count_trailing(s, c) <= i < s.len() ==> s[i] == c,
        count_trailing(s, c) < s.len() ==> s[s.len() - count_trailing(s, c) - 1] != c,
    decreases s.len(),
{
    if s.len() > 0 && s[s.len() - 1] == c {
        lemma_count_trailing_bounds(s.drop_last(), c);
        assert forall|i: int| s.len() - count_trailing(s, c) <= i < s.len() implies s[i] == c by {
            if i < s.len() - 1 {
                assert(s.drop_last()[i] == c);
            }
        }
    }
}

/// Strips matching characters from both ends of a string.
fn trim_char_exec(s: &str, c: char) -> (r: String)
    ensures
        r@ == trim_char(s@, c),
{
    let n = str_char_len(s);
    let mut i: usize = 0;
    while i < n && s.get_char(i) == c
        invariant
            n == s@.len(),
            0 <= i <= n,
            forall|t: int| 0 <= t < i ==> s@[t] == c,
        decreases n - i,
    {
        i = i + 1;
    }
    proof {
        lemma_count_leading_bounds(s@, c);
        assert(count_leading(s@, c) == i) by {
            if count_leading(s@, c) < i {
                assert(s@[count_leading(s@, c)] == c);
            }
            if i < count_leading(s@, c) {
                assert(s@[i as int] == c);
            }
        }
    }
    let mut j: usize = n;
    while j > i && s.get_char(j - 1) == c
        invariant
            n == s@.len(),
            0 <= i <= j <= n,
            forall|t: int| j <= t < n ==> s@[t] == c,
        decreases j,
    {
        j = j - 1;
    }
    let ghost rest = s@.skip(i as int);
    proof {
        lemma_count_trailing_bounds(rest, c);
        assert(count_trailing(rest, c) == n - j) by {
            assert forall|t: int| rest.len() - (n - j) <= t < rest.len() implies rest[t] == c by {
                assert(rest[t] == s@[t + i]);
            }
            if count_trailing(rest, c) < n - j {
                let p = rest.len() - count_trailing(rest, c) - 1;
                assert(rest[p] == s@[p + i]);
                assert(s@[p + i] == c);
            }
            if count_trailing(rest, c) > n - j {
                if j > i {
                    assert(rest[j - i - 1] == s@[j - 1]);
                    assert(rest[j - i - 1] == c);
                }
            }
        }
    }
    let out = s.substring_char(i, j);
    proof {
        assert(out@ =~= trim_char(s@, c));
    }
    out.to_owned()
}

/// What metadata the response headers hold, as specifications see it.
pub ghost struct MetadataView {
    pub metadata: Seq<EntryView>,
    pub user_metadata: Seq<EntryView>,
}

/// One header folded into the two maps: user metadata is collected under its
/// key with the `x-oss-meta-` prefix removed, the entity tag loses the
/// quotes around it, and everything else is kept as it came.
pub open spec fn meta_step(acc: MetadataView, e: EntryView) -> MetadataView {
    if starts_with(e.0, "x-oss-meta-"@) {
        MetadataView {
            metadata: acc.metadata,
            user_metadata: map_insert(acc.user_metadata, e.0.skip(11), e.1),
        }
    } else if e.0 == "etag"@ {
        MetadataView {
            metadata: map_insert(acc.metadata, "etag"@, trim_char(e.1, '"')),
            user_metadata: acc.user_metadata,
        }
    } else {
        MetadataView { metadata: map_insert(acc.metadata, e.0, e.1), user_metadata: acc.user_metadata }
    }
}

/// The headers folded front to back into the two maps.
pub open spec fn split_meta(headers: Seq<EntryView>) -> MetadataView
    decreases headers.len(),
{
    if headers.len() == 0 {
        MetadataView { metadata: Seq::<EntryView>::empty(), user_metadata: Seq::<EntryView>::empty() }
    } else {
        meta_step(split_meta(headers.drop_last()), headers.last())
    }
}

/// Name for the Unix seconds of an RFC 2822 date text: the value depends on
/// the text alone; texts that are no such date have no value.
pub uninterp spec fn rfc2822_secs_of(s: Seq<char>) -> Option<i64>;

/// Relies on chrono's `DateTime::parse_from_rfc2822` and `timestamp`: the
/// Unix seconds of an RFC 2822 date text.
#[verifier::external_body]
fn parse_rfc2822_secs(s: &str) -> (r: Option<i64>)
    ensures
        r == rfc2822_secs_of(s@),
{
    match chrono::DateTime::parse_from_rfc2822(s) {
        Ok(d) => Some(d.with_timezone(&chrono::Utc).timestamp()),
        Err(_) => None,
    }
}

/// Name for the default text of the UTC time at the given Unix seconds: the
/// text depends on the value alone.
pub uninterp spec fn utc_display_of(secs: i64) -> Seq<char>;

/// Relies on chrono's `DateTime::from_timestamp` and its `Display`: the
/// default text of the UTC time at `secs`.  Seconds outside chrono's
/// representable range stand in for the Unix epoch rather than a panic.
#[verifier::external_body]
fn format_utc_display(secs: i64) -> (r: String)
    ensures
        r@ == utc_display_of(secs),
{
    let dt = match chrono::DateTime::from_timestamp(secs, 0) {
        Some(d) => d,
        None => chrono::DateTime::UNIX_EPOCH,
    };
    format!("{}", dt)
}

/// Object metadata: the standard headers and the user metadata, each a map.
#[derive(Debug)]
pub struct ObjectMetadata {
    metadata: StrMap,
    user_metadata: StrMap,
}

impl View for ObjectMetadata {
    type V = MetadataView;

    closed spec fn view(&self) -> MetadataView {
        MetadataView { metadata: self.metadata@, user_metadata: self.user_metadata@ }
    }
}

impl ObjectMetadata {
    /// Splits response headers into standard metadata and user metadata.
    pub fn new(headers: &Vec<(String, String)>) -> (r: ObjectMetadata)
        ensures
            r@ == split_meta(pairs_view(headers@)),
    {
        let mut metadata = StrMap::new();
        let mut user_metadata = StrMap::new();
        let n = headers.len();
        let ghost all = pairs_view(headers@);
        proof {
            assert(all.subrange(0, 0) =~= Seq::<EntryView>::empty());
            assert(split_meta(all.subrange(0, 0)) == MetadataView {
                metadata: Seq::<EntryView>::empty(),
                user_metadata: Seq::<EntryView>::empty(),
            });
        }
        let mut i: usize = 0;
        while i < n
            invariant
                n == headers@.len(),
                all == pairs_view(headers@),
                0 <= i <= n,
                (MetadataView { metadata: metadata@, user_metadata: user_metadata@ }) == split_meta(
                    all.subrange(0, i as int),
                ),
            decreases n - i,
        {
            let ghost e = all[i as int];
            proof {
                assert(e == (headers@[i as int].0@, headers@[i as int].1@));
                assert(all.subrange(0, i + 1).drop_last() =~= all.subrange(0, i as int));
                assert(all.subrange(0, i + 1).last() == e);
            }
            let key = &headers[i].0;
            let value = &headers[i].1;
            if str_starts_with(key.as_str(), "x-oss-meta-") {
                proof {
                    reveal_strlit("x-oss-meta-");
                }
                let short = key.as_str().substring_char(11, str_char_len(key.as_str()));
                user_metadata.insert(short.to_owned(), value.clone());
                proof {
                    assert(short@ =~= e.0.skip(11));
                }
            } else if str_eq(key.as_str(), "etag") {
                let trimmed = trim_char_exec(value.as_str(), '"');
                metadata.insert("etag".to_owned(), trimmed);
            } else {
                metadata.insert(key.clone(), value.clone());
            }
            i = i + 1;
        }
        proof {
            assert(all.subrange(0, n as int) =~= all);
        }
        ObjectMetadata { metadata, user_metadata }
    }

    /// The standard metadata entry under `key`.
    pub fn meta_get(&self, key: &str) -> (r: Option<String>)
        ensures
            match r {
                Some(v) => map_get(self@.metadata, key@) == Some(v@),
                None => map_get(self@.metadata, key@) is None,
            },
    {
        match self.metadata.get(key) {
            Some(v) => Some(v.clone()),
            None => None,
        }
    }

    /// The user metadata entry under `key` (without its former prefix).
    pub fn user_meta_get(&self, key: &str) -> (r: Option<String>)
        ensures
            match r {
                Some(v) => map_get(self@.user_metadata, key@) == Some(v@),
                None => map_get(self@.user_metadata, key@) is None,
            },
    {
        match self.user_metadata.get(key) {
            Some(v) => Some(v.clone()),
            None => None,
        }
    }

    /// The `Last-Modified` entry as Unix seconds, where one stands under
    /// that exact key and parses as an RFC 2822 date.
    pub fn get_last_modified(&self) -> (r: Option<i64>)
        ensures
            r == (match map_get(self@.metadata, "Last-Modified"@) {
                Some(v) => rfc2822_secs_of(v),
                None => None::<i64>,
            }),
    {
        match self.metadata.get("Last-Modified") {
            Some(v) => parse_rfc2822_secs(v.as_str()),
            None => None,
        }
    }

    /// The expiration entry as Unix seconds, where it parses as an RFC 2822
    /// date.
    pub fn get_expiration_time(&self) -> (r: Option<i64>)
        ensures
            r == (match map_get(self@.metadata, "x-oss-expiration"@) {
                Some(v) => rfc2822_secs_of(v),
                None => None::<i64>,
            }),
    {
        match self.metadata.get("x-oss-expiration") {
            Some(v) => parse_rfc2822_secs(v.as_str()),
            None => None,
        }
    }

    /// Stores the expiration as the default text of the UTC time at `time`.
    pub fn set_expiration_time(&mut self, time: i64)
        ensures
            final(self)@.metadata == map_insert(
                old(self)@.metadata,
                "x-oss-expiration"@,
                utc_display_of(time),
            ),
            final(self)@.user_metadata == old(self)@.user_metadata,
    {
        let text = format_utc_display(time);
        self.metadata.insert("x-oss-expiration".to_owned(), text);
    }

    pub fn get_content_md5(&self) -> (r: Option<String>)
        ensures
            match r {
                Some(v) => map_get(self@.metadata, "content-md5"@) == Some(v@),
                None => map_get(self@.metadata, "content-md5"@) is None,
            },
    {
        self.meta_get("content-md5")
    }

    pub fn set_content_md5(&mut self, md5: &str)
        ensures
            final(self)@.metadata == map_insert(old(self)@.metadata, "content-md5"@, md5@),
            final(self)@.user_metadata == old(self)@.user_metadata,
    {
        self.metadata.insert("content-md5".to_owned(), md5.to_owned());
    }

    pub fn get_etag(&self) -> (r: Option<String>)
        ensures
            match r {
                Some(v) => map_get(self@.metadata, "etag"@) == Some(v@),
                None => map_get(self@.metadata, "etag"@) is None,
            },
    {
        self.meta_get("etag")
    }

    pub fn set_etag(&mut self, etag: &str)
        ensures
            final(self)@.metadata == map_insert(old(self)@.metadata, "etag"@, etag@),
            final(self)@.user_metadata == old(self)@.user_metadata,
    {
        self.metadata.insert("etag".to_owned(), etag.to_owned());
    }

    pub fn get_content_length(&self) -> (r: Option<String>)
        ensures
            match r {
                Some(v) => map_get(self@.metadata, "content-length"@) == Some(v@),
                None => map_get(self@.metadata, "content-length"@) is None,
            },
    {
        self.meta_get("content-length")
    }

    /// Stores the length in decimal.
    pub fn set_content_length(&mut self, length: u64)
        ensures
            final(self)@.metadata == map_insert(
                old(self)@.metadata,
                "content-length"@,
                dec_chars(length as nat),
            ),
            final(self)@.user_metadata == old(self)@.user_metadata,
    {
        self.metadata.insert("content-length".to_owned(), u64_to_string(length));
    }

    pub fn get_content_type(&self) -> (r: Option<String>)
        ensures
            match r {
                Some(v) => map_get(self@.metadata, "content-type"@) == Some(v@),
                None => map_get(self@.metadata, "content-type"@) is None,
            },
    {
        self.meta_get("content-type")
    }

    /// An empty content type is ignored rather than stored.
    pub fn set_content_type(&mut self, content_type: &str)
        ensures
            final(self)@.metadata == if content_type@.len() == 0 {
                old(self)@.metadata
            } else {
                map_insert(old(self)@.metadata, "content-type"@, content_type@)
            },
            final(self)@.user_metadata == old(self)@.user_metadata,
    {
        if content_type.is_empty() {
            return ;
        }
        self.metadata.insert("content-type".to_owned(), content_type.to_owned());
    }

    pub fn get_content_encoding(&self) -> (r: Option<String>)
        ensures
            match r {
                Some(v) => map_get(self@.metadata, "content-encoding"@) == Some(v@),
                None => map_get(self@.metadata, "content-encoding"@) is None,
            },
    {
        self.meta_get("content-encoding")
    }

    pub fn set_content_encoding(&mut self, content_encoding: &str)
        ensures
            final(self)@.metadata == map_insert(
                old(self)@.metadata,
                "content-encoding"@,
                content_encoding@,
            ),
            final(self)@.user_metadata == old(self)@.user_metadata,
    {
        self.metadata.insert("content-encoding".to_owned(), content_encoding.to_owned());
    }

    pub fn get_content_disposition(&self) -> (r: Option<String>)
        ensures
            match r {
                Some(v) => map_get(self@.metadata, "content-disposition"@) == Some(v@),
                None => map_get(self@.metadata, "content-disposition"@) is None,
            },
    {
        self.meta_get("content-disposition")
    }

    pub fn set_content_disposition(&mut self, content_disposition: &str)
        ensures
            final(self)@.metadata == map_insert(
                old(self)@.metadata,
                "content-disposition"@,
                content_disposition@,
            ),
            final(self)@.user_metadata == old(self)@.user_metadata,
    {
        self.metadata.insert("content-disposition".to_owned(), content_disposition.to_owned());
    }

    pub fn get_cache_control(&self) -> (r: Option<String>)
        ensures
            match r {
                Some(v) => map_get(self@.metadata, "cache-control"@) == Some(v@),
                None => map_get(self@.metadata, "cache-control"@) is None,
            },
    {
        self.meta_get("cache-control")
    }

    pub fn set_cache_control(&mut self, cache_control: &str)
        ensures
            final(self)@.metadata == map_insert(
                old(self)@.metadata,
                "cache-control"@,
                cache_control@,
            ),
            final(self)@.user_metadata == old(self)@.user_metadata,
    {
        self.metadata.insert("cache-control".to_owned(), cache_control.to_owned());
    }

    pub fn get_crc64(&self) -> (r: Option<String>)
        ensures
            match r {
                Some(v) => map_get(self@.metadata, "x-oss-hash-crc64ecma"@) == Some(v@),
                None => map_get(self@.metadata, "x-oss-hash-crc64ecma"@) is None,
            },
    {
        self.meta_get("x-oss-hash-crc64ecma")
    }

    pub fn set_crc64(&mut self, crc64: &str)
        ensures
            final(self)@.metadata == map_insert(
                old(self)@.metadata,
                "x-oss-hash-crc64ecma"@,
                crc64@,
            ),
            final(self)@.user_metadata == old(self)@.user_metadata,
    {
        self.metadata.insert("x-oss-hash-crc64ecma".to_owned(), crc64.to_owned());
    }

    pub fn server_side_encryption(&self) -> (r: Option<String>)
        ensures
            match r {
                Some(v) => map_get(self@.metadata, "x-oss-server-side-encryption"@) == Some(v@),
                None => map_get(self@.metadata, "x-oss-server-side-encryption"@) is None,
            },
    {
        self.meta_get("x-oss-server-side-encryption")
    }

    pub fn set_server_side_encryption(&mut self, server_side_encryption: &str)
        ensures
            final(self)@.metadata == map_insert(
                old(self)@.metadata,
                "x-oss-server-side-encryption"@,
                server_side_encryption@,
            ),
            final(self)@.user_metadata == old(self)@.user_metadata,
    {
        self.metadata.insert(
            "x-oss-server-side-encryption".to_owned(),
            server_side_encryption.to_owned(),
        );
    }

    pub fn object_type(&self) -> (r: Option<String>)
        ensures
            match r {
                Some(v) => map_get(self@.metadata, "x-oss-object-type"@) == Some(v@),
                None => map_get(self@.metadata, "x-oss-object-type"@) is None,
            },
    {
        self.meta_get("x-oss-object-type")
    }
}

} // verus!
