use hooch_http::response::HeaderKey;
use hooch_http::response::HeaderValue;
use hooch_http::response::HttpResponseBuilder;
use hooch_http::response::HttpStatus;
use hooch_http::shared::HttpVersion;

#[test]
fn serialize_ok_with_body_is_exact() {
    let response = HttpResponseBuilder::ok().body(b"hi".to_vec()).build();
    let bytes = response.serialize(Vec::new());
    assert_eq!(bytes.as_slice(), b"HTTP/1.1 200 OK\r\n\r\nhi".as_slice());
}

#[test]
fn serialize_not_found_without_body() {
    let response = HttpResponseBuilder::not_found().build();
    let bytes = response.serialize(Vec::new());
    assert_eq!(bytes.as_slice(), b"HTTP/1.1 404 Not Found\r\n\r\n".as_slice());
}

#[test]
fn serialize_with_headers_emits_each_line() {
    let headers = vec![
        (HeaderKey(b"Content-Type".to_vec()), HeaderValue(b"text/plain".to_vec())),
        (HeaderKey(b"Content-Length".to_vec()), HeaderValue(b"2".to_vec())),
    ];
    let response = HttpResponseBuilder::ok()
        .headers(headers)
        .body(b"hi".to_vec())
        .build();
    let bytes = response.serialize(Vec::new());
    assert_eq!(
        bytes.as_slice(),
        b"HTTP/1.1 200 OK\r\nContent-Type: text/plain\r\nContent-Length: 2\r\n\r\nhi".as_slice()
    );
}

#[test]
fn serialize_appends_to_existing_buffer() {
    let response = HttpResponseBuilder::no_content().build();
    let bytes = response.serialize(b"prefix:".to_vec());
    assert_eq!(
        bytes.as_slice(),
        b"prefix:HTTP/1.1 204 No Content\r\n\r\n".as_slice()
    );
}

#[test]
fn serialize_explicit_protocal() {
    let response = HttpResponseBuilder::ok()
        .protocal(HttpVersion::OnePointOne)
        .build();
    let bytes = response.serialize(Vec::new());
    assert_eq!(bytes.as_slice(), b"HTTP/1.1 200 OK\r\n\r\n".as_slice());
}

#[test]
fn status_codes_and_reasons() {
    assert_eq!(HttpStatus::Okay.code(), 200);
    assert_eq!(HttpStatus::Created.code(), 201);
    assert_eq!(HttpStatus::NoContent.code(), 204);
    assert_eq!(HttpStatus::BadRequest.code(), 400);
    assert_eq!(HttpStatus::Unauthorized.code(), 401);
    assert_eq!(HttpStatus::Forbidden.code(), 403);
    assert_eq!(HttpStatus::NotFound.code(), 404);
    assert_eq!(HttpStatus::InternalServerError.code(), 500);
    assert_eq!(HttpStatus::BadGateway.code(), 502);
    assert_eq!(HttpStatus::ServiceUnavailable.code(), 503);

    assert_eq!(HttpStatus::Okay.reason_phrase().as_slice(), b"OK".as_slice());
    assert_eq!(
        HttpStatus::InternalServerError.reason_phrase().as_slice(),
        b"Internal Server Error".as_slice()
    );
    assert_eq!(
        HttpStatus::ServiceUnavailable.reason_phrase().as_slice(),
        b"Service Unavailable".as_slice()
    );
}

#[test]
fn builder_shortcuts_pick_the_status() {
    let cases = [
        (HttpResponseBuilder::ok().build(), b"200".as_slice()),
        (HttpResponseBuilder::created().build(), b"201".as_slice()),
        (HttpResponseBuilder::no_content().build(), b"204".as_slice()),
        (HttpResponseBuilder::bad_request().build(), b"400".as_slice()),
        (HttpResponseBuilder::unauthorized().build(), b"401".as_slice()),
        (HttpResponseBuilder::forbidden().build(), b"403".as_slice()),
        (HttpResponseBuilder::not_found().build(), b"404".as_slice()),
        (
            HttpResponseBuilder::internal_server_error().build(),
            b"500".as_slice(),
        ),
        (HttpResponseBuilder::bad_gateway().build(), b"502".as_slice()),
        (
            HttpResponseBuilder::service_unavailable().build(),
            b"503".as_slice(),
        ),
    ];
    for (response, code) in cases {
        let bytes = response.serialize(Vec::new());
        assert_eq!(&bytes[9..12], code);
    }
}

#[test]
fn get_mut_headers_reaches_the_list() {
    let mut builder = HttpResponseBuilder::ok();
    assert!(builder.get_mut_headers().is_none());
    let mut builder = builder.headers(vec![
        (HeaderKey(b"A".to_vec()), HeaderValue(b"1".to_vec())),
    ]);
    let list = builder.get_mut_headers().unwrap();
    list.push((HeaderKey(b"B".to_vec()), HeaderValue(b"2".to_vec())));
    let bytes = builder.build().serialize(Vec::new());
    assert_eq!(
        bytes.as_slice(),
        b"HTTP/1.1 200 OK\r\nA: 1\r\nB: 2\r\n\r\n".as_slice()
    );
}
