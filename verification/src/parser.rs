//! The byte-level parsing stage: the same request-line, header and body
//! splits as [`crate::request::HttpRequest`], but handing back the raw
//! byte spans rather than structured values.

use vstd::prelude::*;

pub use crate::request::Headers;
pub use crate::request::Uri;
pub use crate::shared::HttpMethod;
pub use crate::shared::HttpVersion;

use crate::request::HttpRequest;
use crate::request::WHITESPACE_BYTE;
use crate::request::spec_body;
use crate::request::spec_header_block;
use crate::request::spec_header_line;
use crate::request::spec_headers;
use crate::scan::copy_range;
use crate::scan::find_byte;
use crate::scan::find_byte_from;
use crate::scan::find_crlf_from;
use crate::shared::HttpError;
use crate::shared::spec_method_of;
use crate::shared::version_token;
use crate::utf8::is_utf8;

verus! {

/// A raw request held for byte-level inspection.
#[derive(Debug)]
pub struct HttpRequestParser {
    body: Vec<u8>,
}

impl View for HttpRequestParser {
    type V = Seq<u8>;

    closed spec fn view(&self) -> Seq<u8> {
        self.body@
    }
}

impl HttpRequestParser {
    /// Takes a copy of the raw request bytes.
    pub fn from_bytes(bytes: &[u8]) -> (r: HttpRequestParser)
        ensures
            r@ == bytes@,
    {
        let n = bytes.len();
        let body = copy_range(bytes, 0, n);
        proof {
            assert(body@ =~= bytes@);
        }
        HttpRequestParser { body }
    }

    /// The raw bytes held.
    pub fn bytes(&self) -> (r: &Vec<u8>)
        ensures
            r@ == self@,
    {
        &self.body
    }

    /// The request line: everything before the first CRLF.
    pub fn get_request_line(bytes: &[u8]) -> (r: Result<Vec<u8>, HttpError>)
        ensures
            match find_crlf_from(bytes@, 0) {
                Some(rl) => r is Ok && r->Ok_0@ == bytes@.subrange(0, rl),
                None => r == Err::<Vec<u8>, HttpError>(HttpError::MalformedRequest),
            },
    {
        HttpRequest::get_request_line(bytes)
    }

    /// The raw header block: the span between the request line's CRLF and
    /// the first CRLF-CRLF, possibly empty.
    pub fn get_headers(bytes: &[u8]) -> (r: Result<Vec<u8>, HttpError>)
        ensures
            match spec_header_block(bytes@) {
                Some(hb) => r is Ok && r->Ok_0@ == hb,
                None => r == Err::<Vec<u8>, HttpError>(HttpError::MalformedRequest),
            },
    {
        HttpRequest::get_headers(bytes)
    }

    /// The raw body bytes: everything after the first CRLF-CRLF,
    /// verbatim and unvalidated.
    pub fn get_body(bytes: &[u8]) -> (r: Result<Vec<u8>, HttpError>)
        ensures
            match spec_body(bytes@) {
                Some(b) => r is Ok && r->Ok_0@ == b,
                None => r == Err::<Vec<u8>, HttpError>(HttpError::MalformedRequest),
            },
    {
        let rl = match crate::scan::find_crlf(bytes, 0) {
            Some(i) => i,
            None => {
                return Err(HttpError::MalformedRequest);
            },
        };
        let cc = match crate::scan::find_crlf2(bytes, rl) {
            Some(i) => i,
            None => {
                return Err(HttpError::MalformedRequest);
            },
        };
        let n = bytes.len();
        Ok(copy_range(bytes, cc + 4, n))
    }

    /// The request line's first token: the raw method bytes, up to the
    /// first space or the end.
    pub fn extract_http_method(bytes: &[u8]) -> (r: Vec<u8>)
        ensures
            r@ == (match find_byte_from(bytes@, 0, WHITESPACE_BYTE) {
                Some(s1) => bytes@.subrange(0, s1),
                None => bytes@,
            }),
    {
        match find_byte(bytes, 0, WHITESPACE_BYTE) {
            Some(s1) => copy_range(bytes, 0, s1),
            None => {
                let n = bytes.len();
                let whole = copy_range(bytes, 0, n);
                proof {
                    assert(whole@ =~= bytes@);
                }
                whole
            },
        }
    }

    /// The URI given by the request line's second token, validated as
    /// UTF-8.
    pub fn extract_request_uri(bytes: &[u8]) -> (r: Result<Uri, HttpError>)
        ensures
            ({
                match find_byte_from(bytes@, 0, WHITESPACE_BYTE) {
                    None => r == Err::<Uri, HttpError>(HttpError::MalformedRequest),
                    Some(s1) => {
                        let t1 = match find_byte_from(bytes@, s1 + 1, WHITESPACE_BYTE) {
                            Some(s2) => bytes@.subrange(s1 + 1, s2),
                            None => bytes@.subrange(s1 + 1, bytes@.len() as int),
                        };
                        if is_utf8(t1) {
                            r is Ok && r->Ok_0@ == t1
                        } else {
                            r == Err::<Uri, HttpError>(HttpError::MalformedRequest)
                        }
                    },
                }
            }),
    {
        HttpRequest::extract_request_uri(bytes)
    }

    /// The version named by the request line's third token.
    pub fn extract_http_version(bytes: &[u8]) -> (r: Result<HttpVersion, HttpError>)
        ensures
            ({
                match find_byte_from(bytes@, 0, WHITESPACE_BYTE) {
                    None => r == Err::<HttpVersion, HttpError>(HttpError::MalformedRequest),
                    Some(s1) => match find_byte_from(bytes@, s1 + 1, WHITESPACE_BYTE) {
                        None => r == Err::<HttpVersion, HttpError>(HttpError::MalformedRequest),
                        Some(s2) => {
                            let t2 = match find_byte_from(bytes@, s2 + 1, WHITESPACE_BYTE) {
                                Some(s3) => bytes@.subrange(s2 + 1, s3),
                                None => bytes@.subrange(s2 + 1, bytes@.len() as int),
                            };
                            if t2 == version_token(HttpVersion::OnePointOne) {
                                r == Ok::<HttpVersion, HttpError>(HttpVersion::OnePointOne)
                            } else {
                                r == Err::<HttpVersion, HttpError>(HttpError::MalformedRequest)
                            }
                        },
                    },
                }
            }),
    {
        HttpRequest::extract_http_version(bytes)
    }

    /// Splits a header block into lines at each CRLF and stores each
    /// line's key and value, in wire order.
    pub fn extract_headers(bytes: &[u8]) -> (r: Result<Headers, HttpError>)
        ensures
            match spec_headers(bytes@) {
                Ok(hs) => r is Ok && r->Ok_0@ == hs,
                Err(e) => r == Err::<Headers, HttpError>(e),
            },
    {
        HttpRequest::extract_headers(bytes)
    }

    /// One header line's key and value.
    pub fn get_header_key_and_value(bytes: &[u8]) -> (r: Result<(Vec<u8>, Vec<u8>), HttpError>)
        ensures
            match spec_header_line(bytes@) {
                Some(kv) => r is Ok && r->Ok_0.0@ == kv.0 && r->Ok_0.1@ == kv.1,
                None => r == Err::<(Vec<u8>, Vec<u8>), HttpError>(HttpError::MalformedRequest),
            },
    {
        HttpRequest::get_header_key_and_value(bytes)
    }
}

} // verus!
