use vstd::prelude::*;
use crate::header::{HeaderEntries, HeaderStore, lookup};
use crate::request::{opt_bytes, opt_chars};
use crate::wire::{crlf, decimal, header_block_bytes, push_bytes, push_decimal, push_header_block, push_str};
use vstd::utf8::encode_utf8;

verus! {

#[derive(Debug, PartialEq, Eq, Structural)]
pub enum HttpResponseBuildError {
    MissingVersion,
    MissingStatusCode,
    MissingStatusMessage,
    MissingBody,
}

/// Plain value of a response.
pub struct ResponseView {
    pub version: Seq<char>,
    pub status_code: u16,
    pub status_message: Seq<char>,
    pub headers: HeaderEntries,
    pub body: Seq<u8>,
}

/// Wire form of a response: status line, header lines, blank line, body.
pub open spec fn response_bytes(r: ResponseView) -> Seq<u8> {
    encode_utf8(r.version) + seq![32u8] + decimal(r.status_code as nat) + seq![32u8]
        + encode_utf8(r.status_message) + crlf() + header_block_bytes(r.headers) + crlf() + r.body
}

/// HTTP 1.x response.
pub struct HttpResponse {
    version: String,
    status_code: u16,
    status_message: String,
    headers: HeaderStore,
    body: Vec<u8>,
}

impl View for HttpResponse {
    type V = ResponseView;

    closed spec fn view(&self) -> ResponseView {
        ResponseView {
            version: self.version@,
            status_code: self.status_code,
            status_message: self.status_message@,
            headers: self.headers@,
            body: self.body@,
        }
    }
}

impl HttpResponse {
    pub fn new(
        version: String,
        status_code: u16,
        status_message: String,
        headers: HeaderStore,
        body: Vec<u8>,
    ) -> (r: Self)
        ensures
            r@ == (ResponseView {
                version: version@,
                status_code,
                status_message: status_message@,
                headers: headers@,
                body: body@,
            }),
    {
        HttpResponse { version, status_code, status_message, headers, body }
    }

    pub fn get_version(&self) -> (r: &str)
        ensures
            r@ == self@.version,
    {
        self.version.as_str()
    }

    pub fn set_version(&mut self, version: String)
        ensures
            final(self)@ == (ResponseView { version: version@, ..old(self)@ }),
    {
        self.version = version;
    }

    pub fn get_status_code(&self) -> (r: u16)
        ensures
            r == self@.status_code,
    {
        self.status_code
    }

    pub fn set_status_code(&mut self, status_code: u16)
        ensures
            final(self)@ == (ResponseView { status_code, ..old(self)@ }),
    {
        self.status_code = status_code;
    }

    pub fn get_status_message(&self) -> (r: &str)
        ensures
            r@ == self@.status_message,
    {
        self.status_message.as_str()
    }

    pub fn set_status_message(&mut self, status_message: String)
        ensures
            final(self)@ == (ResponseView { status_message: status_message@, ..old(self)@ }),
    {
        self.status_message = status_message;
    }

    pub fn get_header(&self, key: &String) -> (r: Option<&String>)
        ensures
            match r {
                Some(v) => lookup(self@.headers, key@) == Some(v@),
                None => lookup(self@.headers, key@) is None,
            },
    {
        self.headers.get(key)
    }

    pub fn get_headers(&self) -> (r: &HeaderStore)
        ensures
            r@ == self@.headers,
    {
        &self.headers
    }

    pub fn set_header(&mut self, key: String, val: String)
        ensures
            final(self)@ == (ResponseView {
                headers: crate::header::set_entry(old(self)@.headers, key@, val@),
                ..old(self)@
            }),
    {
        self.headers.set(key, val);
    }

    pub fn get_body(&self) -> (r: &[u8])
        ensures
            r@ == self@.body,
    {
        self.body.as_slice()
    }

    pub fn set_body(&mut self, body: Vec<u8>)
        ensures
            final(self)@ == (ResponseView { body: body@, ..old(self)@ }),
    {
        self.body = body;
    }

    pub fn builder() -> (r: HttpResponseBuilder)
        ensures
            r@ == HttpResponseBuilder::empty_draft(),
    {
        HttpResponseBuilder::new()
    }

    /// Wire bytes of the response.
    pub fn as_bytes(&self) -> (r: Vec<u8>)
        ensures
            r@ == response_bytes(self@),
    {
        let mut out: Vec<u8> = Vec::new();
        push_str(&mut out, self.version.as_str());
        out.push(32u8);
        push_decimal(&mut out, self.status_code as u64);
        out.push(32u8);
        push_str(&mut out, self.status_message.as_str());
        out.push(13u8);
        out.push(10u8);
        push_header_block(&mut out, &self.headers);
        push_bytes(&mut out, self.body.as_slice());
        assert(out@ =~= response_bytes(self@));
        out
    }

    /// Wire bytes of the response, consuming it.
    pub fn into_bytes(self) -> (r: Vec<u8>)
        ensures
            r@ == response_bytes(self@),
    {
        self.as_bytes()
    }
}

/// Plain value of a response builder: each field present or absent.
pub struct ResponseDraft {
    pub version: Option<Seq<char>>,
    pub status_code: Option<u16>,
    pub status_message: Option<Seq<char>>,
    pub headers: HeaderEntries,
    pub body: Option<Seq<u8>>,
}

/// The first field that a build of `d` finds missing, in the order version, status code,
/// status message, body.
pub open spec fn response_draft_error(d: ResponseDraft) -> Option<HttpResponseBuildError> {
    if d.version is None {
        Some(HttpResponseBuildError::MissingVersion)
    } else if d.status_code is None {
        Some(HttpResponseBuildError::MissingStatusCode)
    } else if d.status_message is None {
        Some(HttpResponseBuildError::MissingStatusMessage)
    } else if d.body is None {
        Some(HttpResponseBuildError::MissingBody)
    } else {
        None
    }
}

pub struct HttpResponseBuilder {
    version: Option<String>,
    status_code: Option<u16>,
    status_message: Option<String>,
    headers: HeaderStore,
    body: Option<Vec<u8>>,
}

impl View for HttpResponseBuilder {
    type V = ResponseDraft;

    closed spec fn view(&self) -> ResponseDraft {
        ResponseDraft {
            version: opt_chars(self.version),
            status_code: self.status_code,
            status_message: opt_chars(self.status_message),
            headers: self.headers@,
            body: opt_bytes(self.body),
        }
    }
}

impl HttpResponseBuilder {
    pub open spec fn empty_draft() -> ResponseDraft {
        ResponseDraft {
            version: None,
            status_code: None,
            status_message: None,
            headers: Seq::empty(),
            body: None,
        }
    }

    pub fn new() -> (r: Self)
        ensures
            r@ == Self::empty_draft(),
    {
        HttpResponseBuilder {
            version: None,
            status_code: None,
            status_message: None,
            headers: HeaderStore::new(),
            body: None,
        }
    }

    pub fn set_version(&mut self, version: String) -> (r: &mut Self)
        ensures
            r@ == (ResponseDraft { version: Some(version@), ..old(self)@ }),
            *final(self) == *final(r),
    {
        self.version = Some(version);
        self
    }

    pub fn set_status_code(&mut self, status_code: u16) -> (r: &mut Self)
        ensures
            r@ == (ResponseDraft { status_code: Some(status_code), ..old(self)@ }),
            *final(self) == *final(r),
    {
        self.status_code = Some(status_code);
        self
    }

    pub fn set_status_message(&mut self, status_message: String) -> (r: &mut Self)
        ensures
            r@ == (ResponseDraft { status_message: Some(status_message@), ..old(self)@ }),
            *final(self) == *final(r),
    {
        self.status_message = Some(status_message);
        self
    }

    pub fn set_header(&mut self, key: String, value: String) -> (r: &mut Self)
        ensures
            r@ == (ResponseDraft {
                headers: crate::header::set_entry(old(self)@.headers, key@, value@),
                ..old(self)@
            }),
            *final(self) == *final(r),
    {
        self.headers.set(key, value);
        self
    }

    /// Replaces every header set so far.
    pub fn set_headers(&mut self, headers: HeaderStore) -> (r: &mut Self)
        ensures
            r@ == (ResponseDraft { headers: headers@, ..old(self)@ }),
            *final(self) == *final(r),
    {
        self.headers = headers;
        self
    }

    pub fn set_body(&mut self, body: Vec<u8>) -> (r: &mut Self)
        ensures
            r@ == (ResponseDraft { body: Some(body@), ..old(self)@ }),
            *final(self) == *final(r),
    {
        self.body = Some(body);
        self
    }

    /// Takes the fields out and makes a response of them; the builder is left empty. Fails with
    /// the first missing field, leaving the builder as it was.
    pub fn build(&mut self) -> (r: Result<HttpResponse, HttpResponseBuildError>)
        ensures
            match response_draft_error(old(self)@) {
                Some(e) => r == Err::<HttpResponse, HttpResponseBuildError>(e) && final(self)@ == old(self)@,
                None => r is Ok && final(self)@ == Self::empty_draft() && r->Ok_0@ == (ResponseView {
                    version: old(self)@.version->Some_0,
                    status_code: old(self)@.status_code->Some_0,
                    status_message: old(self)@.status_message->Some_0,
                    headers: old(self)@.headers,
                    body: old(self)@.body->Some_0,
                }),
            },
    {
        if self.version.is_none() {
            return Err(HttpResponseBuildError::MissingVersion);
        }
        if self.status_code.is_none() {
            return Err(HttpResponseBuildError::MissingStatusCode);
        }
        if self.status_message.is_none() {
            return Err(HttpResponseBuildError::MissingStatusMessage);
        }
        if self.body.is_none() {
            return Err(HttpResponseBuildError::MissingBody);
        }
        let mut taken = HttpResponseBuilder::new();
        core::mem::swap(self, &mut taken);
        let HttpResponseBuilder { version, status_code, status_message, headers, body } = taken;
        match (version, status_code, status_message, body) {
            (Some(version), Some(status_code), Some(status_message), Some(body)) => Ok(
                HttpResponse::new(version, status_code, status_message, headers, body),
            ),
            _ => Err(HttpResponseBuildError::MissingBody),
        }
    }
}

} // verus!
