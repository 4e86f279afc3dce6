//! The response side of the engine: status codes with their reason
//! phrases, a builder for status, version, headers and body, and the
//! serializer that emits exact wire bytes.

use vstd::prelude::*;

verus! {

/// The closed set of response statuses, each with a fixed numeric code
/// and reason phrase.
#[derive(Debug, Copy, Clone, PartialEq, Eq, Structural)]
pub enum HttpStatus {
    Okay,
    Created,
    NoContent,
    BadRequest,
    Unauthorized,
    Forbidden,
    NotFound,
    InternalServerError,
    BadGateway,
    ServiceUnavailable,
}

/// The numeric code of a status.
pub open spec fn spec_code(s: HttpStatus) -> u16 {
    match s {
        HttpStatus::Okay => 200,
        HttpStatus::Created => 201,
        HttpStatus::NoContent => 204,
        HttpStatus::BadRequest => 400,
        HttpStatus::Unauthorized => 401,
        HttpStatus::Forbidden => 403,
        HttpStatus::NotFound => 404,
        HttpStatus::InternalServerError => 500,
        HttpStatus::BadGateway => 502,
        HttpStatus::ServiceUnavailable => 503,
    }
}

/// The reason phrase of a status, as wire bytes.
pub open spec fn reason_bytes(s: HttpStatus) -> Seq<u8> {
    match s {
        HttpStatus::Okay => seq![79u8, 75],
        HttpStatus::Created => seq![67u8, 114, 101, 97, 116, 101, 100],
        HttpStatus::NoContent => seq![78u8, 111, 32, 67, 111, 110, 116, 101, 110, 116],
        HttpStatus::BadRequest => seq![66u8, 97, 100, 32, 82, 101, 113, 117, 101, 115, 116],
        HttpStatus::Unauthorized => seq![85u8, 110, 97, 117, 116, 104, 111, 114, 105, 122, 101, 100],
        HttpStatus::Forbidden => seq![70u8, 111, 114, 98, 105, 100, 100, 101, 110],
        HttpStatus::NotFound => seq![78u8, 111, 116, 32, 70, 111, 117, 110, 100],
        HttpStatus::InternalServerError => seq![
            73u8, 110, 116, 101, 114, 110, 97, 108, 32, 83, 101, 114, 118, 101, 114, 32, 69, 114,
            114, 111, 114,
        ],
        HttpStatus::BadGateway => seq![66u8, 97, 100, 32, 71, 97, 116, 101, 119, 97, 121],
        HttpStatus::ServiceUnavailable => seq![
            83u8, 101, 114, 118, 105, 99, 101, 32, 85, 110, 97, 118, 97, 105, 108, 97, 98, 108,
            101,
        ],
    }
}

/// The decimal digits of a status code, as wire bytes.
pub open spec fn code_bytes(s: HttpStatus) -> Seq<u8> {
    match s {
        HttpStatus::Okay => seq![50u8, 48, 48],
        HttpStatus::Created => seq![50u8, 48, 49],
        HttpStatus::NoContent => seq![50u8, 48, 52],
        HttpStatus::BadRequest => seq![52u8, 48, 48],
        HttpStatus::Unauthorized => seq![52u8, 48, 49],
        HttpStatus::Forbidden => seq![52u8, 48, 51],
        HttpStatus::NotFound => seq![52u8, 48, 52],
        HttpStatus::InternalServerError => seq![53u8, 48, 48],
        HttpStatus::BadGateway => seq![53u8, 48, 50],
        HttpStatus::ServiceUnavailable => seq![53u8, 48, 51],
    }
}

impl HttpStatus {
    /// The numeric status code.
    pub fn code(&self) -> (r: u16)
        ensures
            r == spec_code(*self),
    {
        match self {
            HttpStatus::Okay => 200,
            HttpStatus::Created => 201,
            HttpStatus::NoContent => 204,
            HttpStatus::BadRequest => 400,
            HttpStatus::Unauthorized => 401,
            HttpStatus::Forbidden => 403,
            HttpStatus::NotFound => 404,
            HttpStatus::InternalServerError => 500,
            HttpStatus::BadGateway => 502,
            HttpStatus::ServiceUnavailable => 503,
        }
    }

    /// The reason phrase, as owned wire bytes.
    pub fn reason_phrase(&self) -> (r: Vec<u8>)
        ensures
            r@ == reason_bytes(*self),
    {
        let v: Vec<u8> = match self {
            HttpStatus::Okay => vec![79u8, 75],
            HttpStatus::Created => vec![67u8, 114, 101, 97, 116, 101, 100],
            HttpStatus::NoContent => vec![78u8, 111, 32, 67, 111, 110, 116, 101, 110, 116],
            HttpStatus::BadRequest => vec![66u8, 97, 100, 32, 82, 101, 113, 117, 101, 115, 116],
            HttpStatus::Unauthorized => vec![
                85u8, 110, 97, 117, 116, 104, 111, 114, 105, 122, 101, 100,
            ],
            HttpStatus::Forbidden => vec![70u8, 111, 114, 98, 105, 100, 100, 101, 110],
            HttpStatus::NotFound => vec![78u8, 111, 116, 32, 70, 111, 117, 110, 100],
            HttpStatus::InternalServerError => vec![
                73u8, 110, 116, 101, 114, 110, 97, 108, 32, 83, 101, 114, 118, 101, 114, 32, 69,
                114, 114, 111, 114,
            ],
            HttpStatus::BadGateway => vec![66u8, 97, 100, 32, 71, 97, 116, 101, 119, 97, 121],
            HttpStatus::ServiceUnavailable => vec![
                83u8, 101, 114, 118, 105, 99, 101, 32, 85, 110, 97, 118, 97, 105, 108, 97, 98,
                108, 101,
            ],
        };
        proof {
            assert(v@ =~= reason_bytes(*self));
        }
        v
    }

    /// The decimal digits of the status code, as owned wire bytes.
    pub fn code_digits(&self) -> (r: Vec<u8>)
        ensures
            r@ == code_bytes(*self),
    {
        let v: Vec<u8> = match self {
            HttpStatus::Okay => vec![50u8, 48, 48],
            HttpStatus::Created => vec![50u8, 48, 49],
            HttpStatus::NoContent => vec![50u8, 48, 52],
            HttpStatus::BadRequest => vec![52u8, 48, 48],
            HttpStatus::Unauthorized => vec![52u8, 48, 49],
            HttpStatus::Forbidden => vec![52u8, 48, 51],
            HttpStatus::NotFound => vec![52u8, 48, 52],
            HttpStatus::InternalServerError => vec![53u8, 48, 48],
            HttpStatus::BadGateway => vec![53u8, 48, 50],
            HttpStatus::ServiceUnavailable => vec![53u8, 48, 51],
        };
        proof {
            assert(v@ =~= code_bytes(*self));
        }
        v
    }
}

/// A response header key.
#[derive(Debug, Clone, PartialEq, Eq)]
pub struct HeaderKey(pub Vec<u8>);

impl View for HeaderKey {
    type V = Seq<u8>;

    open spec fn view(&self) -> Seq<u8> {
        self.0@
    }
}

impl HeaderKey {
    /// The bytes of the key.
    pub fn as_bytes(&self) -> (r: &Vec<u8>)
        ensures
            r@ == self@,
    {
        &self.0
    }
}

/// A response header value.
#[derive(Debug, Clone, PartialEq, Eq)]
pub struct HeaderValue(pub Vec<u8>);

impl View for HeaderValue {
    type V = Seq<u8>;

    open spec fn view(&self) -> Seq<u8> {
        self.0@
    }
}

impl HeaderValue {
    /// The bytes of the value.
    pub fn as_bytes(&self) -> (r: &Vec<u8>)
        ensures
            r@ == self@,
    {
        &self.0
    }
}

/// The view of a response header list: one `(key, value)` pair per entry,
/// in emission order.
pub open spec fn header_pairs_view(entries: Seq<(HeaderKey, HeaderValue)>) -> Seq<
    (Seq<u8>, Seq<u8>),
> {
    entries.map_values(|p: (HeaderKey, HeaderValue)| (p.0@, p.1@))
}

/// The mathematical content of a response under construction.
#[verifier::ext_equal]
pub struct BuilderView {
    /// The chosen status.
    pub status: HttpStatus,
    /// The protocol version, if one was set.
    pub protocal: Option<crate::shared::HttpVersion>,
    /// The headers, if any were set.
    pub headers: Option<Seq<(Seq<u8>, Seq<u8>)>>,
    /// The body, if one was set.
    pub body: Option<Seq<u8>>,
}

/// The mathematical content of a finished response.
#[verifier::ext_equal]
pub struct ResponseView {
    /// The status line's status.
    pub status: HttpStatus,
    /// The protocol version on the status line.
    pub protocal: crate::shared::HttpVersion,
    /// The headers, if any.
    pub headers: Option<Seq<(Seq<u8>, Seq<u8>)>>,
    /// The body, if any.
    pub body: Option<Seq<u8>>,
}

/// A fresh builder: only the status chosen, everything else unset.
pub open spec fn initial_builder(status: HttpStatus) -> BuilderView {
    BuilderView { status, protocal: None, headers: None, body: None }
}

/// Builder for a response: accumulates status, version, headers and body;
/// `build` freezes them into an [`HttpResponse`].
#[derive(Debug)]
pub struct HttpResponseBuilder {
    status: HttpStatus,
    protocal: Option<crate::shared::HttpVersion>,
    headers: Option<Vec<(HeaderKey, HeaderValue)>>,
    body: Option<Vec<u8>>,
}

impl View for HttpResponseBuilder {
    type V = BuilderView;

    closed spec fn view(&self) -> BuilderView {
        BuilderView {
            status: self.status,
            protocal: self.protocal,
            headers: match self.headers {
                Some(h) => Some(header_pairs_view(h@)),
                None => None,
            },
            body: match self.body {
                Some(b) => Some(b@),
                None => None,
            },
        }
    }
}

impl HttpResponseBuilder {
    /// A builder with the given status.
    pub fn new(status: HttpStatus) -> (r: HttpResponseBuilder)
        ensures
            r@ == initial_builder(status),
    {
        HttpResponseBuilder { status, protocal: None, headers: None, body: None }
    }

    /// Shortcut for 200 OK.
    pub fn ok() -> (r: HttpResponseBuilder)
        ensures
            r@ == initial_builder(HttpStatus::Okay),
    {
        Self::new(HttpStatus::Okay)
    }

    /// Shortcut for 201 Created.
    pub fn created() -> (r: HttpResponseBuilder)
        ensures
            r@ == initial_builder(HttpStatus::Created),
    {
        Self::new(HttpStatus::Created)
    }

    /// Shortcut for 204 No Content.
    pub fn no_content() -> (r: HttpResponseBuilder)
        ensures
            r@ == initial_builder(HttpStatus::NoContent),
    {
        Self::new(HttpStatus::NoContent)
    }

    /// Shortcut for 400 Bad Request.
    pub fn bad_request() -> (r: HttpResponseBuilder)
        ensures
            r@ == initial_builder(HttpStatus::BadRequest),
    {
        Self::new(HttpStatus::BadRequest)
    }

    /// Shortcut for 401 Unauthorized.
    pub fn unauthorized() -> (r: HttpResponseBuilder)
        ensures
            r@ == initial_builder(HttpStatus::Unauthorized),
    {
        Self::new(HttpStatus::Unauthorized)
    }

    /// Shortcut for 403 Forbidden.
    pub fn forbidden() -> (r: HttpResponseBuilder)
        ensures
            r@ == initial_builder(HttpStatus::Forbidden),
    {
        Self::new(HttpStatus::Forbidden)
    }

    /// Shortcut for 404 Not Found.
    pub fn not_found() -> (r: HttpResponseBuilder)
        ensures
            r@ == initial_builder(HttpStatus::NotFound),
    {
        Self::new(HttpStatus::NotFound)
    }

    /// Shortcut for 500 Internal Server Error.
    pub fn internal_server_error() -> (r: HttpResponseBuilder)
        ensures
            r@ == initial_builder(HttpStatus::InternalServerError),
    {
        Self::new(HttpStatus::InternalServerError)
    }

    /// Shortcut for 502 Bad Gateway.
    pub fn bad_gateway() -> (r: HttpResponseBuilder)
        ensures
            r@ == initial_builder(HttpStatus::BadGateway),
    {
        Self::new(HttpStatus::BadGateway)
    }

    /// Shortcut for 503 Service Unavailable.
    pub fn service_unavailable() -> (r: HttpResponseBuilder)
        ensures
            r@ == initial_builder(HttpStatus::ServiceUnavailable),
    {
        Self::new(HttpStatus::ServiceUnavailable)
    }

    /// Sets the protocol version.
    pub fn protocal(self, protocal: crate::shared::HttpVersion) -> (r: HttpResponseBuilder)
        ensures
            r@ == (BuilderView { protocal: Some(protocal), ..self@ }),
    {
        HttpResponseBuilder {
            status: self.status,
            protocal: Some(protocal),
            headers: self.headers,
            body: self.body,
        }
    }

    /// Sets the header list, replacing any earlier one.
    pub fn headers(self, headers: Vec<(HeaderKey, HeaderValue)>) -> (r: HttpResponseBuilder)
        ensures
            r@ == (BuilderView { headers: Some(header_pairs_view(headers@)), ..self@ }),
    {
        HttpResponseBuilder {
            status: self.status,
            protocal: self.protocal,
            headers: Some(headers),
            body: self.body,
        }
    }

    /// The header list set so far, open for in-place additions; `None`
    /// while no list has been set.
    pub fn get_mut_headers(&mut self) -> (r: Option<&mut Vec<(HeaderKey, HeaderValue)>>)
        ensures
            r is Some <==> old(self)@.headers is Some,
    {
        self.headers.as_mut()
    }

    /// Sets the body, replacing any earlier one.
    pub fn body(self, body: Vec<u8>) -> (r: HttpResponseBuilder)
        ensures
            r@ == (BuilderView { body: Some(body@), ..self@ }),
    {
        HttpResponseBuilder {
            status: self.status,
            protocal: self.protocal,
            headers: self.headers,
            body: Some(body),
        }
    }

    /// Freezes the builder; a version never set defaults to HTTP/1.1.
    pub fn build(self) -> (r: HttpResponse)
        ensures
            r@.status == self@.status,
            r@.protocal == (match self@.protocal {
                Some(p) => p,
                None => crate::shared::HttpVersion::OnePointOne,
            }),
            r@.headers == self@.headers,
            r@.body == self@.body,
    {
        HttpResponse {
            status: self.status,
            protocal: match self.protocal {
                Some(p) => p,
                None => crate::shared::HttpVersion::OnePointOne,
            },
            headers: self.headers,
            body: self.body,
        }
    }
}

/// A finished response, built once and serialized exactly once.
#[derive(Debug)]
pub struct HttpResponse {
    status: HttpStatus,
    protocal: crate::shared::HttpVersion,
    headers: Option<Vec<(HeaderKey, HeaderValue)>>,
    body: Option<Vec<u8>>,
}

impl View for HttpResponse {
    type V = ResponseView;

    closed spec fn view(&self) -> ResponseView {
        ResponseView {
            status: self.status,
            protocal: self.protocal,
            headers: match self.headers {
                Some(h) => Some(header_pairs_view(h@)),
                None => None,
            },
            body: match self.body {
                Some(b) => Some(b@),
                None => None,
            },
        }
    }
}

/// A CRLF, as wire bytes.
pub open spec fn crlf_bytes() -> Seq<u8> {
    seq![13u8, 10]
}

/// The wire bytes of the header lines from index `i` on: each entry as
/// `key`, a colon and one space, `value`, CRLF.
pub open spec fn header_lines_bytes(hs: Seq<(Seq<u8>, Seq<u8>)>, i: int) -> Seq<u8>
    decreases hs.len() - i,
{
    if i < 0 || i >= hs.len() {
        Seq::<u8>::empty()
    } else {
        hs[i].0 + seq![58u8, 32] + hs[i].1 + crlf_bytes() + header_lines_bytes(hs, i + 1)
    }
}

/// The exact wire bytes of a response: status line `version SP code SP
/// reason CRLF`, one line per header, a blank CRLF, then the body bytes
/// verbatim. No Content-Length is added and nothing is chunked.
pub open spec fn spec_serialize(v: ResponseView) -> Seq<u8> {
    crate::shared::version_token(v.protocal) + seq![32u8] + code_bytes(v.status) + seq![32u8]
        + reason_bytes(v.status) + crlf_bytes() + (match v.headers {
        Some(hs) => header_lines_bytes(hs, 0),
        None => Seq::<u8>::empty(),
    }) + crlf_bytes() + (match v.body {
        Some(b) => b,
        None => Seq::<u8>::empty(),
    })
}

/// Appends all of `src` to `buf`.
fn append_bytes(buf: &mut Vec<u8>, src: &[u8])
    ensures
        final(buf)@ == old(buf)@ + src@,
{
    let n = src.len();
    let mut k: usize = 0;
    while k < n
        invariant
            k <= n,
            n == src@.len(),
            buf@ == old(buf)@ + src@.subrange(0, k as int),
        decreases n - k,
    {
        let ghost prev = buf@;
        buf.push(src[k]);
        proof {
            assert(prev.push(src@[k as int]) =~= old(buf)@ + src@.subrange(0, k + 1));
        }
        k = k + 1;
    }
    proof {
        assert(src@.subrange(0, n as int) =~= src@);
    }
}

impl HttpResponse {
    /// Serializes the response onto the end of `buffer` and hands the
    /// buffer back: exactly the bytes `spec_serialize` names, nothing
    /// more.
    #[verifier::rlimit(50)]
    pub fn serialize(self, buffer: Vec<u8>) -> (r: Vec<u8>)
        ensures
            r@ == buffer@ + spec_serialize(self@),
    {
        let ghost view0 = self@;
        let mut buf = buffer;
        let version = crate::shared::version_wire_bytes(&self.protocal);
        append_bytes(&mut buf, version.as_slice());
        buf.push(32);
        let digits = self.status.code_digits();
        append_bytes(&mut buf, digits.as_slice());
        buf.push(32);
        let reason = self.status.reason_phrase();
        append_bytes(&mut buf, reason.as_slice());
        buf.push(13);
        buf.push(10);
        let ghost after_status = buf@;
        match &self.headers {
            Some(entries) => {
                let ghost hs = header_pairs_view(entries@);
                let m = entries.len();
                let mut j: usize = 0;
                while j < m
                    invariant
                        j <= m,
                        m == entries@.len(),
                        hs == header_pairs_view(entries@),
                        hs.len() == m,
                        buf@ + header_lines_bytes(hs, j as int) == after_status
                            + header_lines_bytes(hs, 0),
                    decreases m - j,
                {
                    let ghost before = buf@;
                    append_bytes(&mut buf, entries[j].0.0.as_slice());
                    buf.push(58);
                    buf.push(32);
                    append_bytes(&mut buf, entries[j].1.0.as_slice());
                    buf.push(13);
                    buf.push(10);
                    proof {
                        assert(buf@ =~= before + (hs[j as int].0 + seq![58u8, 32]
                            + hs[j as int].1 + crlf_bytes()));
                        assert(buf@ + header_lines_bytes(hs, j + 1) =~= before
                            + header_lines_bytes(hs, j as int));
                    }
                    j = j + 1;
                }
            },
            None => {},
        }
        buf.push(13);
        buf.push(10);
        match self.body {
            Some(body) => {
                append_bytes(&mut buf, body.as_slice());
            },
            None => {},
        }
        proof {
            assert(buf@ =~= buffer@ + spec_serialize(view0));
        }
        buf
    }
}

} // verus!
