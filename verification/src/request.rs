//! Per-request configuration: HTTP method, expiry, headers and parameters.

use vstd::prelude::*;
use crate::strmap::{map_insert, EntryView, StrMap};
use crate::strutil::int_dec_chars;
use crate::strutil::i64_to_string;

verus! {

/// A span of time in seconds.
pub type Seconds = i64;

#[derive(Clone, Copy, Debug, PartialEq, Eq, Structural)]
pub enum RequestType {
    Get,
    Put,
    Post,
    Delete,
    Head,
}

/// The verb characters of a method, as they appear in the canonical string.
pub open spec fn method_chars(m: RequestType) -> Seq<char> {
    match m {
        RequestType::Get => "GET"@,
        RequestType::Put => "PUT"@,
        RequestType::Post => "POST"@,
        RequestType::Delete => "DELETE"@,
        RequestType::Head => "HEAD"@,
    }
}

impl RequestType {
    /// The verb as a string.
    pub fn as_str(&self) -> (r: &'static str)
        ensures
            r@ == method_chars(*self),
    {
        match self {
            RequestType::Get => "GET",
            RequestType::Put => "PUT",
            RequestType::Post => "POST",
            RequestType::Delete => "DELETE",
            RequestType::Head => "HEAD",
        }
    }
}

/// What a request configuration holds, as specifications see it.
pub ghost struct BuilderView {
    pub cdn: Option<Seq<char>>,
    pub https: bool,
    pub method: RequestType,
    pub expire: int,
    pub headers: Seq<EntryView>,
    pub parameters: Seq<EntryView>,
    pub content_type: Option<Seq<char>>,
    pub content_md5: Option<Seq<char>>,
    pub oss_headers: Seq<EntryView>,
}

pub open spec fn opt_str_view(o: &Option<String>) -> Option<Seq<char>> {
    match o {
        Some(s) => Some(s@),
        None => None,
    }
}

/// The mutable option bag threaded into every signing operation.
#[derive(Debug)]
pub struct RequestBuilder {
    pub cdn: Option<String>,
    pub https: bool,
    pub method: RequestType,
    pub expire: Seconds,
    pub headers: StrMap,
    pub parameters: StrMap,
    pub content_type: Option<String>,
    pub content_md5: Option<String>,
    pub oss_headers: StrMap,
}

impl View for RequestBuilder {
    type V = BuilderView;

    open spec fn view(&self) -> BuilderView {
        BuilderView {
            cdn: opt_str_view(&self.cdn),
            https: self.https,
            method: self.method,
            expire: self.expire as int,
            headers: self.headers@,
            parameters: self.parameters@,
            content_type: opt_str_view(&self.content_type),
            content_md5: opt_str_view(&self.content_md5),
            oss_headers: self.oss_headers@,
        }
    }
}

impl RequestBuilder {
    /// A fresh configuration: GET over https, one minute of validity, and no
    /// headers or parameters.
    pub fn new() -> (r: Self)
        ensures
            r@.cdn is None,
            r@.https == true,
            r@.method == RequestType::Get,
            r@.expire == 60,
            r@.headers == Seq::<EntryView>::empty(),
            r@.parameters == Seq::<EntryView>::empty(),
            r@.content_type is None,
            r@.content_md5 is None,
            r@.oss_headers == Seq::<EntryView>::empty(),
    {
        RequestBuilder {
            cdn: None,
            https: true,
            method: RequestType::Get,
            expire: 60,
            headers: StrMap::new(),
            parameters: StrMap::new(),
            content_type: None,
            content_md5: None,
            oss_headers: StrMap::new(),
        }
    }

    pub fn with_http(self) -> (r: Self)
        ensures
            r@ == (BuilderView { https: false, ..self@ }),
    {
        RequestBuilder { https: false, ..self }
    }

    pub fn with_cdn(self, cdn: &str) -> (r: Self)
        ensures
            r@ == (BuilderView { cdn: Some(cdn@), ..self@ }),
    {
        RequestBuilder { cdn: Some(cdn.to_owned()), ..self }
    }

    pub fn with_content_type(self, content_type: &str) -> (r: Self)
        ensures
            r@ == (BuilderView { content_type: Some(content_type@), ..self@ }),
    {
        RequestBuilder { content_type: Some(content_type.to_owned()), ..self }
    }

    pub fn with_expire(self, expire: Seconds) -> (r: Self)
        ensures
            r@ == (BuilderView { expire: expire as int, ..self@ }),
    {
        RequestBuilder { expire, ..self }
    }

    pub fn with_method(self, method: RequestType) -> (r: Self)
        ensures
            r@ == (BuilderView { method, ..self@ }),
    {
        RequestBuilder { method, ..self }
    }

    pub fn response_content_disposition(self, file_name: &str) -> (r: Self)
        ensures
            r@ == (BuilderView {
                parameters: map_insert(
                    self@.parameters,
                    "response-content-disposition"@,
                    "attachment;filename="@ + file_name@,
                ),
                ..self@
            }),
    {
        let mut value = "attachment;filename=".to_owned();
        value.append(file_name);
        let mut parameters = self.parameters;
        parameters.insert("response-content-disposition".to_owned(), value);
        RequestBuilder { parameters, ..self }
    }

    pub fn oss_signature_version2(self) -> (r: Self)
        ensures
            r@ == (BuilderView {
                parameters: map_insert(self@.parameters, "x-oss-signature-version"@, "OSS2"@),
                ..self@
            }),
    {
        let mut parameters = self.parameters;
        parameters.insert("x-oss-signature-version".to_owned(), "OSS2".to_owned());
        RequestBuilder { parameters, ..self }
    }

    pub fn response_content_encoding(self, encoding: &str) -> (r: Self)
        ensures
            r@ == (BuilderView {
                parameters: map_insert(self@.parameters, "response-content-encoding"@, encoding@),
                ..self@
            }),
    {
        let mut parameters = self.parameters;
        parameters.insert("response-content-encoding".to_owned(), encoding.to_owned());
        RequestBuilder { parameters, ..self }
    }

    /// The download speed limit in KB/s; the service takes it in bits per
    /// second.  Limits below 30 KB/s are not accepted.
    pub fn oss_download_speed_limit(self, speed: i32) -> (r: Self)
        requires
            30 <= speed <= 0x3ffff,
        ensures
            r@ == (BuilderView {
                parameters: map_insert(
                    self@.parameters,
                    "x-oss-traffic-limit"@,
                    int_dec_chars(speed as int * 1024 * 8),
                ),
                ..self@
            }),
    {
        let bits: i64 = (speed as i64) * 1024 * 8;
        let mut parameters = self.parameters;
        parameters.insert("x-oss-traffic-limit".to_owned(), i64_to_string(bits));
        RequestBuilder { parameters, ..self }
    }

    pub fn oss_download_allow_ip(self, ip: &str, mask: u8) -> (r: Self)
        ensures
            r@ == (BuilderView {
                parameters: map_insert(
                    map_insert(self@.parameters, "x-oss-ac-source-ip"@, ip@),
                    "x-oss-ac-subnet-mask"@,
                    int_dec_chars(mask as int),
                ),
                ..self@
            }),
    {
        let mut parameters = self.parameters;
        parameters.insert("x-oss-ac-source-ip".to_owned(), ip.to_owned());
        parameters.insert("x-oss-ac-subnet-mask".to_owned(), i64_to_string(mask as i64));
        RequestBuilder { parameters, ..self }
    }

    pub fn oss_ac_forward_allow(self) -> (r: Self)
        ensures
            r@ == (BuilderView {
                parameters: map_insert(self@.parameters, "x-oss-ac-forwarded-for"@, "true"@),
                ..self@
            }),
    {
        let mut parameters = self.parameters;
        parameters.insert("x-oss-ac-forwarded-for".to_owned(), "true".to_owned());
        RequestBuilder { parameters, ..self }
    }

    pub fn oss_header_put(self, key: &str, value: &str) -> (r: Self)
        ensures
            r@ == (BuilderView {
                oss_headers: map_insert(self@.oss_headers, key@, value@),
                ..self@
            }),
    {
        let mut oss_headers = self.oss_headers;
        oss_headers.insert(key.to_owned(), value.to_owned());
        RequestBuilder { oss_headers, ..self }
    }

    pub fn parameters_put(self, key: &str, value: &str) -> (r: Self)
        ensures
            r@ == (BuilderView {
                parameters: map_insert(self@.parameters, key@, value@),
                ..self@
            }),
    {
        let mut parameters = self.parameters;
        parameters.insert(key.to_owned(), value.to_owned());
        RequestBuilder { parameters, ..self }
    }

    /// Puts a header under `key` verbatim; signing reads the `date` entry.
    pub fn header_put(self, key: &str, value: &str) -> (r: Self)
        ensures
            r@ == (BuilderView { headers: map_insert(self@.headers, key@, value@), ..self@ }),
    {
        let mut headers = self.headers;
        headers.insert(key.to_owned(), value.to_owned());
        RequestBuilder { headers, ..self }
    }

    /// A copy whose configuration is the same.
    pub fn duplicate(&self) -> (r: Self)
        ensures
            r@ == self@,
    {
        RequestBuilder {
            cdn: match &self.cdn {
                Some(s) => Some(s.clone()),
                None => None,
            },
            https: self.https,
            method: self.method,
            expire: self.expire,
            headers: self.headers.duplicate(),
            parameters: self.parameters.duplicate(),
            content_type: match &self.content_type {
                Some(s) => Some(s.clone()),
                None => None,
            },
            content_md5: match &self.content_md5 {
                Some(s) => Some(s.clone()),
                None => None,
            },
            oss_headers: self.oss_headers.duplicate(),
        }
    }
}

} // verus!
