use hooch_http::dispatch::Middleware;
use hooch_http::dispatch::MiddlewareStep;
use hooch_http::dispatch::Route;
use hooch_http::dispatch::RouteOutcome;
use hooch_http::dispatch::middleware_step;
use hooch_http::dispatch::not_found_response;
use hooch_http::dispatch::route_request;
use hooch_http::request::HttpRequest;
use hooch_http::response::HttpResponseBuilder;
use hooch_http::shared::HttpMethod;

fn sample_request() -> HttpRequest {
    HttpRequest::from_bytes(b"GET /what/hello?this=value HTTP/1.1\r\nHost: h\r\n\r\n").unwrap()
}

#[test]
fn middleware_short_circuit_skips_the_rest() {
    // The chain [Continue, ShortCircuit(404), Continue]: the second
    // outcome must end the pass with exactly the supplied response, so
    // the third middleware and all routing never run.
    let mut ran = [false, false, false];
    let outcomes = [
        Middleware::Continue(sample_request()),
        Middleware::ShortCircuit(HttpResponseBuilder::not_found().build()),
        Middleware::Continue(sample_request()),
    ];

    let mut i = 0usize;
    let mut response = None;
    for outcome in outcomes {
        ran[i] = true;
        match middleware_step(i, outcome) {
            MiddlewareStep::Next(j, _req) => {
                i = j;
            }
            MiddlewareStep::Respond(resp) => {
                response = Some(resp);
                break;
            }
        }
    }

    assert_eq!(ran, [true, true, false]);
    let bytes = response.unwrap().serialize(Vec::new());
    assert_eq!(bytes.as_slice(), b"HTTP/1.1 404 Not Found\r\n\r\n".as_slice());
}

#[test]
fn middleware_continue_advances_with_replaced_request() {
    let replacement =
        HttpRequest::from_bytes(b"POST /other HTTP/1.1\r\nHost: h\r\n\r\n").unwrap();
    match middleware_step(0, Middleware::Continue(replacement)) {
        MiddlewareStep::Next(j, req) => {
            assert_eq!(j, 1);
            assert_eq!(req.method(), HttpMethod::POST);
            assert_eq!(req.uri().as_bytes().as_slice(), b"/other".as_slice());
        }
        MiddlewareStep::Respond(_) => panic!("a Continue outcome must advance the chain"),
    }
}

#[test]
fn first_matching_route_wins() {
    let request = sample_request();
    let routes = vec![
        Route { pattern: b"/nope".to_vec(), method: HttpMethod::GET },
        // Pattern fits but the method does not: must be passed over.
        Route { pattern: b"/what/{mate}".to_vec(), method: HttpMethod::POST },
        Route { pattern: b"/what/{mate}".to_vec(), method: HttpMethod::GET },
        Route { pattern: b"/{anything}".to_vec(), method: HttpMethod::GET },
    ];

    match route_request(request.uri(), request.method(), &routes).unwrap() {
        RouteOutcome::Matched(j, params) => {
            assert_eq!(j, 2);
            let mut expected = hooch_http::request::Segment::new();
            expected.insert_key_value(b"mate".to_vec(), Some(b"hello".to_vec())).unwrap();
            assert_eq!(params.path_segment(), &expected);
        }
        RouteOutcome::Fallback(_) => panic!("a route matches, so no fallback is owed"),
    }
}

#[test]
fn unmatched_request_falls_back_to_not_found() {
    // A request whose path and method fit no registered route, after a
    // middleware chain that only continues, yields the fixed 404.
    let request = sample_request();
    let step = middleware_step(0, Middleware::Continue(request));
    let request = match step {
        MiddlewareStep::Next(_, req) => req,
        MiddlewareStep::Respond(_) => panic!("a Continue outcome must advance the chain"),
    };

    let routes = vec![
        Route { pattern: b"/orders/{id}".to_vec(), method: HttpMethod::GET },
        Route { pattern: b"/what/{mate}".to_vec(), method: HttpMethod::POST },
    ];

    match route_request(request.uri(), request.method(), &routes).unwrap() {
        RouteOutcome::Matched(_, _) => panic!("no route fits this request"),
        RouteOutcome::Fallback(resp) => {
            let bytes = resp.serialize(Vec::new());
            assert_eq!(bytes.as_slice(), b"HTTP/1.1 404 Not Found\r\n\r\n".as_slice());
        }
    }
}

#[test]
fn oversized_parameters_surface_capacity_error() {
    let mut raw = b"GET /x?".to_vec();
    let mut i = 0;
    while i < 1025 {
        if i > 0 {
            raw.push(b'&');
        }
        raw.push(b'a');
        i += 1;
    }
    raw.extend_from_slice(b" HTTP/1.1\r\nHost: h\r\n\r\n");
    let request = HttpRequest::from_bytes(raw.as_slice()).unwrap();

    let routes = vec![Route { pattern: b"/x".to_vec(), method: HttpMethod::GET }];
    assert_eq!(
        route_request(request.uri(), request.method(), &routes).unwrap_err(),
        hooch_http::shared::HttpError::CapacityExceeded
    );
}

#[test]
fn empty_route_table_falls_back() {
    let request = sample_request();
    let routes: Vec<Route> = Vec::new();
    match route_request(request.uri(), request.method(), &routes).unwrap() {
        RouteOutcome::Matched(_, _) => panic!("there is nothing to match"),
        RouteOutcome::Fallback(resp) => {
            let expected = not_found_response().serialize(Vec::new());
            assert_eq!(resp.serialize(Vec::new()), expected);
        }
    }
}
