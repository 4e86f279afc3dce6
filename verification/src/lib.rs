//! A minimal HTTP/1.1 protocol engine with verified parsing, routing and
//! serialization.
//!
//! The crate turns raw request bytes into a structured [`request::HttpRequest`],
//! matches request URIs against parameterized route patterns, drives a
//! short-circuitable middleware/routing dispatch, and serializes
//! [`response::HttpResponse`] values back into wire bytes.

pub mod dispatch;
pub mod parser;
pub mod request;
pub mod response;
pub mod scan;
pub mod shared;
pub mod utf8;

pub use dispatch::Middleware;
pub use dispatch::Route;
pub use parser::HttpRequestParser;
pub use request::Headers;
pub use request::HttpRequest;
pub use request::Key;
pub use request::Params;
pub use request::Segment;
pub use request::Uri;
pub use request::Value;
pub use response::HeaderKey;
pub use response::HeaderValue;
pub use response::HttpResponse;
pub use response::HttpResponseBuilder;
pub use response::HttpStatus;
pub use shared::HttpError;
pub use shared::HttpMethod;
pub use shared::HttpVersion;
