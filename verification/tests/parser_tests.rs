use hooch_http::parser::HttpRequestParser;
use hooch_http::request::Headers;
use hooch_http::request::Uri;
use hooch_http::shared::HttpMethod;
use hooch_http::shared::HttpVersion;

fn get_test_post_request() -> &'static [u8] {
    b"POST /user HTTP/1.1\r\nHost: localhost:8080\r\nUser-Agent: curl/7.81.0\r\nAccept: */*\r\nContent-Type: application/json\r\nContent-Length: 26\r\n\r\n{\"message\": \"hello world\"}"
}

#[test]
fn parser_get_request_line() {
    let request = get_test_post_request();
    // Bytes representing request line
    let expected = [
        80u8, 79, 83, 84, 32, 47, 117, 115, 101, 114, 32, 72, 84, 84, 80, 47, 49, 46, 49,
    ];
    let actual = HttpRequestParser::get_request_line(request).unwrap();

    assert_eq!(actual.as_slice(), expected.as_slice());
}

#[test]
fn parser_extract_http_method() {
    let request_line = [
        80u8, 79, 83, 84, 32, 47, 117, 115, 101, 114, 32, 72, 84, 84, 80, 47, 49, 46, 49,
    ];

    let expected = [80u8, 79, 83, 84];

    let actual = HttpRequestParser::extract_http_method(&request_line);

    assert_eq!(actual.as_slice(), expected.as_slice());
}

#[test]
fn parser_bytes_to_http_method() {
    let get = [71u8, 69, 84];
    let actual = HttpMethod::from_bytes(get.as_slice()).unwrap();
    assert_eq!(actual, HttpMethod::GET);

    let head = [72u8, 69, 65, 68];
    let actual = HttpMethod::from_bytes(head.as_slice()).unwrap();
    assert_eq!(actual, HttpMethod::HEAD);

    let options = [79u8, 80, 84, 73, 79, 78, 83];
    let actual = HttpMethod::from_bytes(options.as_slice()).unwrap();
    assert_eq!(actual, HttpMethod::OPTIONS);

    let post = [80u8, 79, 83, 84];
    let actual = HttpMethod::from_bytes(post.as_slice()).unwrap();
    assert_eq!(actual, HttpMethod::POST);

    let put = [80u8, 85, 84];
    let actual = HttpMethod::from_bytes(put.as_slice()).unwrap();
    assert_eq!(actual, HttpMethod::PUT);

    let patch = [80u8, 65, 84, 67, 72];
    let actual = HttpMethod::from_bytes(patch.as_slice()).unwrap();
    assert_eq!(actual, HttpMethod::PATCH);

    let delete = [68u8, 69, 76, 69, 84, 69];
    let actual = HttpMethod::from_bytes(delete.as_slice()).unwrap();
    assert_eq!(actual, HttpMethod::DELETE);
}

#[test]
fn parser_extract_request_uri() {
    let request_line = [
        80u8, 79, 83, 84, 32, 47, 117, 115, 101, 114, 32, 72, 84, 84, 80, 47, 49, 46, 49,
    ];

    let actual = HttpRequestParser::extract_request_uri(&request_line).unwrap();
    let expected = Uri(b"/user".to_vec());

    assert_eq!(actual, expected);
}

#[test]
fn parser_extract_http_version() {
    let request_line = [
        80u8, 79, 83, 84, 32, 47, 117, 115, 101, 114, 32, 72, 84, 84, 80, 47, 49, 46, 49,
    ];

    let expected = HttpVersion::OnePointOne;

    let actual = HttpRequestParser::extract_http_version(&request_line).unwrap();

    assert_eq!(actual, expected);
}

#[test]
fn parser_get_headers() {
    let request = get_test_post_request();

    let actual = HttpRequestParser::get_headers(request).unwrap();

    let expected: &[u8] = b"Host: localhost:8080\r\nUser-Agent: curl/7.81.0\r\nAccept: */*\r\nContent-Type: application/json\r\nContent-Length: 26";

    assert_eq!(actual.as_slice(), expected);
}

#[test]
fn parser_extract_headers() {
    let headers: &[u8] = b"Host: localhost:8080\r\nUser-Agent: curl/7.81.0\r\nAccept:*/*\r\nContent-Type:application/json\r\nContent-Length: 26";

    let actual = HttpRequestParser::extract_headers(headers).unwrap();

    let mut expected = Headers::new();
    expected.add_key_value(b"Host".to_vec(), b"localhost:8080".to_vec()).unwrap();
    expected.add_key_value(b"User-Agent".to_vec(), b"curl/7.81.0".to_vec()).unwrap();
    expected.add_key_value(b"Accept".to_vec(), b"*/*".to_vec()).unwrap();
    expected.add_key_value(b"Content-Type".to_vec(), b"application/json".to_vec()).unwrap();
    expected.add_key_value(b"Content-Length".to_vec(), b"26".to_vec()).unwrap();

    assert_eq!(actual, expected);
}

#[test]
fn parser_get_body() {
    let request = get_test_post_request();

    let actual = HttpRequestParser::get_body(request).unwrap();

    let expected: &[u8] = b"{\"message\": \"hello world\"}";

    assert_eq!(actual.as_slice(), expected);
}
