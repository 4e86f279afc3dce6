//! The closed enumerations of the wire protocol — methods, versions — and the
//! error taxonomy shared by the parser and the containers.

use vstd::prelude::*;

verus! {

/// The errors a request can provoke. Both are local to one connection and
/// recoverable: neither may abort the process.
#[derive(Debug, Copy, Clone, PartialEq, Eq, Structural)]
pub enum HttpError {
    /// The bytes do not form a well-shaped request: no CRLF, a bad token
    /// count on the request line, an unknown method or version, invalid
    /// UTF-8, or a header line without a colon.
    MalformedRequest,
    /// A fixed-capacity container was asked to hold more than its capacity.
    CapacityExceeded,
}

/// The supported HTTP protocol versions.
#[derive(Debug, Copy, Clone, PartialEq, Eq, Structural)]
pub enum HttpVersion {
    /// HTTP version 1.1.
    OnePointOne,
}

/// The supported HTTP methods.
#[derive(Debug, Copy, Clone, PartialEq, Eq, Structural)]
pub enum HttpMethod {
    GET,
    HEAD,
    OPTIONS,
    POST,
    PUT,
    PATCH,
    DELETE,
}

/// The wire token of an HTTP version, as bytes: `HTTP/1.1`.
pub open spec fn version_token(v: HttpVersion) -> Seq<u8> {
    seq![72u8, 84, 84, 80, 47, 49, 46, 49]
}

/// The wire token of an HTTP method, as bytes: `GET`, `HEAD`, and so on.
pub open spec fn method_token(m: HttpMethod) -> Seq<u8> {
    match m {
        HttpMethod::GET => seq![71u8, 69, 84],
        HttpMethod::HEAD => seq![72u8, 69, 65, 68],
        HttpMethod::OPTIONS => seq![79u8, 80, 84, 73, 79, 78, 83],
        HttpMethod::POST => seq![80u8, 79, 83, 84],
        HttpMethod::PUT => seq![80u8, 85, 84],
        HttpMethod::PATCH => seq![80u8, 65, 84, 67, 72],
        HttpMethod::DELETE => seq![68u8, 69, 76, 69, 84, 69],
    }
}

/// The method whose wire token is `s`, if any.
pub open spec fn spec_method_of(s: Seq<u8>) -> Option<HttpMethod> {
    if s == method_token(HttpMethod::GET) {
        Some(HttpMethod::GET)
    } else if s == method_token(HttpMethod::HEAD) {
        Some(HttpMethod::HEAD)
    } else if s == method_token(HttpMethod::OPTIONS) {
        Some(HttpMethod::OPTIONS)
    } else if s == method_token(HttpMethod::POST) {
        Some(HttpMethod::POST)
    } else if s == method_token(HttpMethod::PUT) {
        Some(HttpMethod::PUT)
    } else if s == method_token(HttpMethod::PATCH) {
        Some(HttpMethod::PATCH)
    } else if s == method_token(HttpMethod::DELETE) {
        Some(HttpMethod::DELETE)
    } else {
        None
    }
}

/// The wire token of a version, as owned bytes.
pub fn version_wire_bytes(v: &HttpVersion) -> (r: Vec<u8>)
    ensures
        r@ == version_token(*v),
{
    let b: Vec<u8> = vec![72u8, 84, 84, 80, 47, 49, 46, 49];
    proof {
        assert(b@ =~= version_token(*v));
    }
    b
}

/// Byte-for-byte equality of two slices.
pub fn bytes_eq(a: &[u8], b: &[u8]) -> (r: bool)
    ensures
        r <==> a@ == b@,
{
    if a.len() != b.len() {
        proof {
            assert(a@.len() != b@.len());
        }
        return false;
    }
    let mut i: usize = 0;
    while i < a.len()
        invariant
            i <= a@.len(),
            a@.len() == b@.len(),
            forall|k: int| 0 <= k < i ==> a@[k] == b@[k],
        decreases a@.len() - i,
    {
        if a[i] != b[i] {
            return false;
        }
        i = i + 1;
    }
    proof {
        assert(a@ =~= b@);
    }
    true
}

impl HttpMethod {
    /// Converts a wire token such as `GET` into a method; an unknown token
    /// yields `None` rather than a panic.
    pub fn from_bytes(bytes: &[u8]) -> (r: Option<HttpMethod>)
        ensures
            r == spec_method_of(bytes@),
    {
        let n = bytes.len();
        if n == 3 && bytes[0] == 71 && bytes[1] == 69 && bytes[2] == 84 {
            proof {
                assert(bytes@ =~= method_token(HttpMethod::GET));
            }
            return Some(HttpMethod::GET);
        }
        if n == 4 && bytes[0] == 72 && bytes[1] == 69 && bytes[2] == 65 && bytes[3] == 68 {
            proof {
                assert(bytes@ =~= method_token(HttpMethod::HEAD));
            }
            return Some(HttpMethod::HEAD);
        }
        if n == 7 && bytes[0] == 79 && bytes[1] == 80 && bytes[2] == 84 && bytes[3] == 73
            && bytes[4] == 79 && bytes[5] == 78 && bytes[6] == 83 {
            proof {
                assert(bytes@ =~= method_token(HttpMethod::OPTIONS));
            }
            return Some(HttpMethod::OPTIONS);
        }
        if n == 4 && bytes[0] == 80 && bytes[1] == 79 && bytes[2] == 83 && bytes[3] == 84 {
            proof {
                assert(bytes@ =~= method_token(HttpMethod::POST));
            }
            return Some(HttpMethod::POST);
        }
        if n == 3 && bytes[0] == 80 && bytes[1] == 85 && bytes[2] == 84 {
            proof {
                assert(bytes@ =~= method_token(HttpMethod::PUT));
            }
            return Some(HttpMethod::PUT);
        }
        if n == 5 && bytes[0] == 80 && bytes[1] == 65 && bytes[2] == 84 && bytes[3] == 67
            && bytes[4] == 72 {
            proof {
                assert(bytes@ =~= method_token(HttpMethod::PATCH));
            }
            return Some(HttpMethod::PATCH);
        }
        if n == 6 && bytes[0] == 68 && bytes[1] == 69 && bytes[2] == 76 && bytes[3] == 69
            && bytes[4] == 84 && bytes[5] == 69 {
            proof {
                assert(bytes@ =~= method_token(HttpMethod::DELETE));
            }
            return Some(HttpMethod::DELETE);
        }
        None
    }
}

impl HttpVersion {
    /// Converts the wire token `HTTP/1.1` into a version; an unknown token
    /// yields `None` rather than a panic.
    pub fn from_bytes(bytes: &[u8]) -> (r: Option<HttpVersion>)
        ensures
            r is Some <==> bytes@ == version_token(HttpVersion::OnePointOne),
            r is Some ==> r == Some(HttpVersion::OnePointOne),
    {
        let n = bytes.len();
        if n == 8 && bytes[0] == 72 && bytes[1] == 84 && bytes[2] == 84 && bytes[3] == 80
            && bytes[4] == 47 && bytes[5] == 49 && bytes[6] == 46 && bytes[7] == 49 {
            proof {
                assert(bytes@ =~= version_token(HttpVersion::OnePointOne));
            }
            Some(HttpVersion::OnePointOne)
        } else {
            None
        }
    }
}

} // verus!
