use vstd::prelude::*;
use crate::header::{HeaderEntries, HeaderStore, lookup};
use crate::wire::{crlf, header_block_bytes, push_bytes, push_header_block, push_str};
use vstd::utf8::encode_utf8;

verus! {

#[derive(Debug, PartialEq, Eq, Structural)]
pub enum HttpRequestBuildError {
    MissingMethod,
    MissingUrl,
    MissingVersion,
    MissingBody,
}

/// Plain value of a request.
pub struct RequestView {
    pub method: Seq<char>,
    pub url: Seq<char>,
    pub version: Seq<char>,
    pub headers: HeaderEntries,
    pub body: Seq<u8>,
}

/// Wire form of a request: start line, header lines, blank line, body.
pub open spec fn request_bytes(r: RequestView) -> Seq<u8> {
    encode_utf8(r.method) + seq![32u8] + encode_utf8(r.url) + seq![32u8] + encode_utf8(r.version)
        + crlf() + header_block_bytes(r.headers) + crlf() + r.body
}

/// HTTP 1.x request.
pub struct HttpRequest {
    method: String,
    url: String,
    version: String,
    headers: HeaderStore,
    body: Vec<u8>,
}

impl View for HttpRequest {
    type V = RequestView;

    closed spec fn view(&self) -> RequestView {
        RequestView {
            method: self.method@,
            url: self.url@,
            version: self.version@,
            headers: self.headers@,
            body: self.body@,
        }
    }
}

impl HttpRequest {
    pub fn new(
        method: String,
        url: String,
        version: String,
        headers: HeaderStore,
        body: Vec<u8>,
    ) -> (r: Self)
        ensures
            r@ == (RequestView {
                method: method@,
                url: url@,
                version: version@,
                headers: headers@,
                body: body@,
            }),
    {
        HttpRequest { method, url, version, headers, body }
    }

    pub fn get_method(&self) -> (r: &str)
        ensures
            r@ == self@.method,
    {
        self.method.as_str()
    }

    pub fn set_method(&mut self, method: String)
        ensures
            final(self)@ == (RequestView { method: method@, ..old(self)@ }),
    {
        self.method = method;
    }

    pub fn get_url(&self) -> (r: &str)
        ensures
            r@ == self@.url,
    {
        self.url.as_str()
    }

    pub fn set_url(&mut self, url: String)
        ensures
            final(self)@ == (RequestView { url: url@, ..old(self)@ }),
    {
        self.url = url;
    }

    pub fn get_version(&self) -> (r: &str)
        ensures
            r@ == self@.version,
    {
        self.version.as_str()
    }

    pub fn set_version(&mut self, version: String)
        ensures
            final(self)@ == (RequestView { version: version@, ..old(self)@ }),
    {
        self.version = version;
    }

    pub fn get_header(&self, key: &String) -> (r: Option<&String>)
        ensures
            match r {
                Some(v) => lookup(self@.headers, key@) == Some(v@),
                None => lookup(self@.headers, key@) is None,
            },
    {
        self.headers.get(key)
    }

    pub fn get_headers(&self) -> (r: &HeaderStore)
        ensures
            r@ == self@.headers,
    {
        &self.headers
    }

    pub fn set_header(&mut self, key: String, val: String)
        ensures
            final(self)@ == (RequestView {
                headers: crate::header::set_entry(old(self)@.headers, key@, val@),
                ..old(self)@
            }),
    {
        self.headers.set(key, val);
    }

    pub fn get_body(&self) -> (r: &[u8])
        ensures
            r@ == self@.body,
    {
        self.body.as_slice()
    }

    pub fn set_body(&mut self, body: Vec<u8>)
        ensures
            final(self)@ == (RequestView { body: body@, ..old(self)@ }),
    {
        self.body = body;
    }

    pub fn builder() -> (r: HttpRequestBuilder)
        ensures
            r@ == HttpRequestBuilder::empty_draft(),
    {
        HttpRequestBuilder::new()
    }

    /// Wire bytes of the request.
    pub fn as_bytes(&self) -> (r: Vec<u8>)
        ensures
            r@ == request_bytes(self@),
    {
        let mut out: Vec<u8> = Vec::new();
        push_str(&mut out, self.method.as_str());
        out.push(32u8);
        push_str(&mut out, self.url.as_str());
        out.push(32u8);
        push_str(&mut out, self.version.as_str());
        out.push(13u8);
        out.push(10u8);
        push_header_block(&mut out, &self.headers);
        push_bytes(&mut out, self.body.as_slice());
        assert(out@ =~= request_bytes(self@));
        out
    }

    /// Wire bytes of the request, consuming it.
    pub fn into_bytes(self) -> (r: Vec<u8>)
        ensures
            r@ == request_bytes(self@),
    {
        self.as_bytes()
    }
}

/// Plain value of a request builder: each field present or absent.
pub struct RequestDraft {
    pub method: Option<Seq<char>>,
    pub url: Option<Seq<char>>,
    pub version: Option<Seq<char>>,
    pub headers: HeaderEntries,
    pub body: Option<Seq<u8>>,
}

/// The first field that a build of `d` finds missing, in the order method, url, version, body.
pub open spec fn request_draft_error(d: RequestDraft) -> Option<HttpRequestBuildError> {
    if d.method is None {
        Some(HttpRequestBuildError::MissingMethod)
    } else if d.url is None {
        Some(HttpRequestBuildError::MissingUrl)
    } else if d.version is None {
        Some(HttpRequestBuildError::MissingVersion)
    } else if d.body is None {
        Some(HttpRequestBuildError::MissingBody)
    } else {
        None
    }
}

pub struct HttpRequestBuilder {
    method: Option<String>,
    url: Option<String>,
    version: Option<String>,
    headers: HeaderStore,
    body: Option<Vec<u8>>,
}

pub open spec fn opt_chars(o: Option<String>) -> Option<Seq<char>> {
    match o {
        Some(s) => Some(s@),
        None => None,
    }
}

pub open spec fn opt_bytes(o: Option<Vec<u8>>) -> Option<Seq<u8>> {
    match o {
        Some(b) => Some(b@),
        None => None,
    }
}

impl View for HttpRequestBuilder {
    type V = RequestDraft;

    closed spec fn view(&self) -> RequestDraft {
        RequestDraft {
            method: opt_chars(self.method),
            url: opt_chars(self.url),
            version: opt_chars(self.version),
            headers: self.headers@,
            body: opt_bytes(self.body),
        }
    }
}

impl HttpRequestBuilder {
    pub open spec fn empty_draft() -> RequestDraft {
        RequestDraft {
            method: None,
            url: None,
            version: None,
            headers: Seq::empty(),
            body: None,
        }
    }

    pub fn new() -> (r: Self)
        ensures
            r@ == Self::empty_draft(),
    {
        HttpRequestBuilder {
            method: None,
            url: None,
            version: None,
            headers: HeaderStore::new(),
            body: None,
        }
    }

    pub fn set_method(&mut self, method: String) -> (r: &mut Self)
        ensures
            r@ == (RequestDraft { method: Some(method@), ..old(self)@ }),
            *final(self) == *final(r),
    {
        self.method = Some(method);
        self
    }

    pub fn set_url(&mut self, url: String) -> (r: &mut Self)
        ensures
            r@ == (RequestDraft { url: Some(url@), ..old(self)@ }),
            *final(self) == *final(r),
    {
        self.url = Some(url);
        self
    }

    pub fn set_version(&mut self, version: String) -> (r: &mut Self)
        ensures
            r@ == (RequestDraft { version: Some(version@), ..old(self)@ }),
            *final(self) == *final(r),
    {
        self.version = Some(version);
        self
    }

    pub fn set_body(&mut self, body: Vec<u8>) -> (r: &mut Self)
        ensures
            r@ == (RequestDraft { body: Some(body@), ..old(self)@ }),
            *final(self) == *final(r),
    {
        self.body = Some(body);
        self
    }

    pub fn set_header(&mut self, key: String, value: String) -> (r: &mut Self)
        ensures
            r@ == (RequestDraft {
                headers: crate::header::set_entry(old(self)@.headers, key@, value@),
                ..old(self)@
            }),
            *final(self) == *final(r),
    {
        self.headers.set(key, value);
        self
    }

    /// Replaces every header set so far.
    pub fn set_headers(&mut self, headers: HeaderStore) -> (r: &mut Self)
        ensures
            r@ == (RequestDraft { headers: headers@, ..old(self)@ }),
            *final(self) == *final(r),
    {
        self.headers = headers;
        self
    }

    /// Takes the fields out and makes a request of them; the builder is left empty. Fails with
    /// the first missing field, leaving the builder as it was.
    pub fn build(&mut self) -> (r: Result<HttpRequest, HttpRequestBuildError>)
        ensures
            match request_draft_error(old(self)@) {
                Some(e) => r == Err::<HttpRequest, HttpRequestBuildError>(e) && final(self)@ == old(self)@,
                None => r is Ok && final(self)@ == Self::empty_draft() && r->Ok_0@ == (RequestView {
                    method: old(self)@.method->Some_0,
                    url: old(self)@.url->Some_0,
                    version: old(self)@.version->Some_0,
                    headers: old(self)@.headers,
                    body: old(self)@.body->Some_0,
                }),
            },
    {
        if self.method.is_none() {
            return Err(HttpRequestBuildError::MissingMethod);
        }
        if self.url.is_none() {
            return Err(HttpRequestBuildError::MissingUrl);
        }
        if self.version.is_none() {
            return Err(HttpRequestBuildError::MissingVersion);
        }
        if self.body.is_none() {
            return Err(HttpRequestBuildError::MissingBody);
        }
        let mut taken = HttpRequestBuilder::new();
        core::mem::swap(self, &mut taken);
        let HttpRequestBuilder { method, url, version, headers, body } = taken;
        match (method, url, version, body) {
            (Some(method), Some(url), Some(version), Some(body)) => Ok(
                HttpRequest::new(method, url, version, headers, body),
            ),
            _ => Err(HttpRequestBuildError::MissingBody),
        }
    }
}

} // verus!
