//! The middleware/router dispatch decisions: one pass per request, no
//! retries. Middleware outcomes either advance the chain or short-circuit
//! straight to a response; after the chain, routes are tried in
//! registration order and the first whose pattern and method both fit
//! wins, with a fixed 404 response as the fallback.
//!
//! The outside work — reading the socket, awaiting a middleware or
//! handler — happens elsewhere; these functions decide, from plain
//! values, what happens next.

use vstd::prelude::*;

use crate::request::HttpRequest;
use crate::request::Params;
use crate::request::Uri;
use crate::request::captures_as_entries;
use crate::request::spec_is_match;
use crate::request::spec_query_of;
use crate::response::HttpResponse;
use crate::response::HttpResponseBuilder;
use crate::response::HttpStatus;
use crate::response::ResponseView;
use crate::shared::HttpError;
use crate::shared::HttpMethod;
use crate::shared::HttpVersion;

verus! {

/// The outcome of one middleware invocation: continue with the (possibly
/// replaced) request, or short-circuit with this response.
pub enum Middleware {
    /// Keep going with this request.
    Continue(HttpRequest),
    /// Skip all remaining middleware and routing; respond with exactly
    /// this response.
    ShortCircuit(HttpResponse),
}

/// One registered route: a URI pattern and the method it answers to. The
/// handler itself lives with the caller, under the same index as its
/// route.
#[derive(Debug)]
pub struct Route {
    /// The parameterized URI pattern.
    pub pattern: Vec<u8>,
    /// The method this route answers to.
    pub method: HttpMethod,
}

/// Where the dispatch stands after one middleware outcome.
#[derive(Debug)]
pub enum MiddlewareStep {
    /// Run middleware at this index next, on this request.
    Next(usize, HttpRequest),
    /// Stop: respond with exactly this response.
    Respond(HttpResponse),
}

/// What routing decided: the index of the route whose handler must run,
/// with the parameters its pattern extracted, or the fallback response.
#[derive(Debug)]
pub enum RouteOutcome {
    /// Route `usize` matched; invoke its handler with these parameters.
    Matched(usize, Params),
    /// No route matched; respond with exactly this response.
    Fallback(HttpResponse),
}

/// Route `route` answers `uri` with `method`: its pattern matches the
/// URI's path and its method is the request's.
pub open spec fn route_matches(uri: Seq<u8>, method: HttpMethod, route: &Route) -> bool {
    &&& spec_is_match(uri, route.pattern@) is Some
    &&& route.method == method
}

/// The pattern matches the URI but the extracted parameters overflow a
/// segment: more captures or more query entries than `MAX_NUM_PARAMS`.
pub open spec fn match_oversized(uri: Seq<u8>, pattern: Seq<u8>) -> bool {
    match spec_is_match(uri, pattern) {
        Some(caps) => caps.len() > crate::request::MAX_NUM_PARAMS || spec_query_of(uri).len()
            > crate::request::MAX_NUM_PARAMS,
        None => false,
    }
}

/// The fixed fallback response: 404 Not Found, HTTP/1.1, no headers, no
/// body.
pub open spec fn default_not_found() -> ResponseView {
    ResponseView {
        status: HttpStatus::NotFound,
        protocal: HttpVersion::OnePointOne,
        headers: None,
        body: None,
    }
}

/// The fixed 404 response sent when no route matches.
pub fn not_found_response() -> (r: HttpResponse)
    ensures
        r@ == default_not_found(),
{
    HttpResponseBuilder::not_found().build()
}

/// Advances the middleware chain by one outcome: a `Continue` moves to
/// the next middleware with the (possibly replaced) request, a
/// `ShortCircuit` ends the pass with exactly the supplied response, so
/// no later middleware and no route ever runs.
pub fn middleware_step(i: usize, outcome: Middleware) -> (r: MiddlewareStep)
    requires
        i < usize::MAX,
    ensures
        match outcome {
            Middleware::Continue(req) => r matches MiddlewareStep::Next(j, req2) && j == i + 1
                && req2 == req,
            Middleware::ShortCircuit(resp) => r matches MiddlewareStep::Respond(resp2) && resp2
                == resp,
        },
{
    match outcome {
        Middleware::Continue(req) => MiddlewareStep::Next(i + 1, req),
        Middleware::ShortCircuit(resp) => MiddlewareStep::Respond(resp),
    }
}

/// Tries the routes in registration order against the request's URI and
/// method. The first route whose pattern matches the path and whose
/// method equals the request's wins, and the parameters are exactly what
/// its pattern extracts; when no route fits, the outcome is the fixed
/// 404 response. A route whose match would overflow a parameter segment
/// surfaces `CapacityExceeded` instead.
pub fn route_request(uri: &Uri, method: HttpMethod, routes: &Vec<Route>) -> (r: Result<
    RouteOutcome,
    HttpError,
>)
    ensures
        match r {
            Ok(outcome) => match outcome {
                RouteOutcome::Matched(j, p) => {
                    &&& j < routes@.len()
                    &&& route_matches(uri@, method, &routes@[j as int])
                    &&& !match_oversized(uri@, routes@[j as int].pattern@)
                    &&& forall|k: int|
                        0 <= k < j ==> !route_matches(uri@, method, &routes@[k])
                            && !match_oversized(uri@, routes@[k].pattern@)
                    &&& p.spec_path() == captures_as_entries(
                        spec_is_match(uri@, routes@[j as int].pattern@)->0,
                    )
                    &&& p.spec_query() == spec_query_of(uri@)
                    &&& p.spec_path_cursor() == 0
                    &&& p.spec_query_cursor() == 0
                },
                RouteOutcome::Fallback(resp) => {
                    &&& forall|k: int|
                        0 <= k < routes@.len() ==> !route_matches(uri@, method, &routes@[k])
                            && !match_oversized(uri@, routes@[k].pattern@)
                    &&& resp@ == default_not_found()
                },
            },
            Err(e) => {
                &&& e == HttpError::CapacityExceeded
                &&& exists|jj: int|
                    {
                        &&& 0 <= jj < routes@.len()
                        &&& #[trigger] match_oversized(uri@, routes@[jj].pattern@)
                        &&& forall|k: int|
                            0 <= k < jj ==> !route_matches(uri@, method, &routes@[k])
                                && !match_oversized(uri@, routes@[k].pattern@)
                    }
            },
        },
{
    let n = routes.len();
    let mut j: usize = 0;
    while j < n
        invariant
            j <= n,
            n == routes@.len(),
            forall|k: int|
                0 <= k < j ==> !route_matches(uri@, method, &routes@[k]) && !match_oversized(
                    uri@,
                    routes@[k].pattern@,
                ),
        decreases n - j,
    {
        match uri.is_match(routes[j].pattern.as_slice()) {
            Ok(Some(params)) => {
                if routes[j].method == method {
                    return Ok(RouteOutcome::Matched(j, params));
                }
            },
            Ok(None) => {},
            Err(e) => {
                proof {
                    assert(match_oversized(uri@, routes@[j as int].pattern@));
                }
                return Err(e);
            },
        }
        j = j + 1;
    }
    Ok(RouteOutcome::Fallback(not_found_response()))
}

} // verus!
