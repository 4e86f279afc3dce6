use hooch_http::request::HttpRequest;
use hooch_http::request::Headers;
use hooch_http::request::Uri;
use hooch_http::shared::HttpError;
use hooch_http::shared::HttpMethod;
use hooch_http::shared::HttpVersion;
use hooch_http::utf8::check_utf8;

#[test]
fn parse_round_trip() {
    let raw = b"GET /a/b?x=1&y HTTP/1.1\r\nHost: h\r\n\r\n";
    let request = HttpRequest::from_bytes(raw).unwrap();

    assert_eq!(request.method(), HttpMethod::GET);
    assert_eq!(request.uri().as_bytes().as_slice(), b"/a/b?x=1&y".as_slice());
    assert_eq!(request.version(), HttpVersion::OnePointOne);
    assert_eq!(request.headers().len(), 1);
    assert_eq!(request.headers().get(b"Host"), Some(b"h".to_vec()));
    assert_eq!(request.body().as_slice(), b"".as_slice());
}

#[test]
fn parse_missing_crlf_is_malformed() {
    assert_eq!(
        HttpRequest::from_bytes(b"GET / HTTP/1.1").unwrap_err(),
        HttpError::MalformedRequest
    );
}

#[test]
fn parse_wrong_token_count_is_malformed() {
    assert_eq!(
        HttpRequest::from_bytes(b"GET /a HTTP/1.1 extra\r\n\r\n").unwrap_err(),
        HttpError::MalformedRequest
    );
    assert_eq!(
        HttpRequest::from_bytes(b"GET/aHTTP/1.1\r\n\r\n").unwrap_err(),
        HttpError::MalformedRequest
    );
}

#[test]
fn parse_unknown_method_is_malformed() {
    assert_eq!(
        HttpRequest::from_bytes(b"BREW /pot HTTP/1.1\r\n\r\n").unwrap_err(),
        HttpError::MalformedRequest
    );
}

#[test]
fn parse_unknown_version_is_malformed() {
    assert_eq!(
        HttpRequest::from_bytes(b"GET / HTTP/2.0\r\n\r\n").unwrap_err(),
        HttpError::MalformedRequest
    );
}

#[test]
fn parse_header_without_colon_is_malformed() {
    assert_eq!(
        HttpRequest::from_bytes(b"GET / HTTP/1.1\r\nNoColonHere\r\n\r\n").unwrap_err(),
        HttpError::MalformedRequest
    );
}

#[test]
fn parse_invalid_utf8_body_is_malformed() {
    let mut raw = b"GET / HTTP/1.1\r\nHost: h\r\n\r\n".to_vec();
    raw.push(0xFF);
    assert_eq!(
        HttpRequest::from_bytes(raw.as_slice()).unwrap_err(),
        HttpError::MalformedRequest
    );
}

#[test]
fn parse_too_many_headers_is_capacity_exceeded() {
    let mut raw = b"GET / HTTP/1.1\r\n".to_vec();
    let mut i = 0;
    while i < 1001 {
        raw.extend_from_slice(b"k: v\r\n");
        i += 1;
    }
    raw.extend_from_slice(b"\r\n");
    assert_eq!(
        HttpRequest::from_bytes(raw.as_slice()).unwrap_err(),
        HttpError::CapacityExceeded
    );
}

#[test]
fn header_store_capacity_and_first_match() {
    let mut headers = Headers::new();
    headers.add_key_value(b"k".to_vec(), b"first".to_vec()).unwrap();
    headers.add_key_value(b"k".to_vec(), b"second".to_vec()).unwrap();
    // Lookup is linear and insertion-ordered: the first match wins.
    assert_eq!(headers.get(b"k"), Some(b"first".to_vec()));
    assert_eq!(headers.get(b"missing"), None);

    let mut full = Headers::new();
    let mut i = 0;
    while i < 1000 {
        full.add_key_value(b"a".to_vec(), b"b".to_vec()).unwrap();
        i += 1;
    }
    assert_eq!(
        full.add_key_value(b"a".to_vec(), b"b".to_vec()),
        Err(HttpError::CapacityExceeded)
    );
}

#[test]
fn query_parsing_keeps_empty_and_bare_fragments() {
    let actual = Uri::parse_segment(b"a=1&b&&c=3").unwrap();

    let mut expected = hooch_http::request::Segment::new();
    expected.insert_key_value(b"a".to_vec(), Some(b"1".to_vec())).unwrap();
    expected.insert_key_value(b"b".to_vec(), None).unwrap();
    expected.insert_key_value(b"".to_vec(), None).unwrap();
    expected.insert_key_value(b"c".to_vec(), Some(b"3".to_vec())).unwrap();

    assert_eq!(actual.size(), 4);
    assert_eq!(actual, expected);
}

#[test]
fn iteration_is_restartable() {
    let uri = Uri(b"/orders/42?full=true&x".to_vec());
    let mut params = uri.is_match(b"/orders/{id}").unwrap().unwrap();

    params.iter_path();
    let mut first_pass = Vec::new();
    while let Some(kv) = params.next_path() {
        first_pass.push(kv);
    }
    params.iter_path();
    let mut second_pass = Vec::new();
    while let Some(kv) = params.next_path() {
        second_pass.push(kv);
    }
    assert_eq!(first_pass, second_pass);
    assert_eq!(first_pass.len(), 1);

    params.iter_query();
    let mut first_query = Vec::new();
    while let Some(kv) = params.next_query() {
        first_query.push(kv);
    }
    params.iter_query();
    let mut second_query = Vec::new();
    while let Some(kv) = params.next_query() {
        second_query.push(kv);
    }
    assert_eq!(first_query, second_query);
    assert_eq!(first_query.len(), 2);
}

#[test]
fn collected_passes_are_identical() {
    let uri = Uri(b"/orders/42?full=true&x".to_vec());
    let mut params = uri.is_match(b"/orders/{id}").unwrap().unwrap();

    let first_path = params.collect_path();
    let second_path = params.collect_path();
    assert_eq!(first_path, second_path);
    assert_eq!(
        first_path,
        vec![(b"id".to_vec(), Some(b"42".to_vec()))]
    );

    let first_query = params.collect_query();
    let second_query = params.collect_query();
    assert_eq!(first_query, second_query);
    assert_eq!(
        first_query,
        vec![
            (b"full".to_vec(), Some(b"true".to_vec())),
            (b"x".to_vec(), None),
        ]
    );
}

#[test]
fn segment_inserts_are_bounded() {
    let mut seg = hooch_http::request::Segment::new();
    let mut i = 0;
    while i < 1024 {
        seg.insert_key_value(b"k".to_vec(), Some(b"v".to_vec())).unwrap();
        i += 1;
    }
    // The 1025th entry exceeds capacity M and leaves the segment as it was.
    assert_eq!(
        seg.insert_key_value(b"k".to_vec(), Some(b"v".to_vec())),
        Err(HttpError::CapacityExceeded)
    );
    assert_eq!(seg.size(), 1024);
    assert_eq!(
        seg.insert_key(b"k".to_vec()),
        Err(HttpError::CapacityExceeded)
    );

    // Below capacity, the staged key/value pair goes through.
    let mut staged = hooch_http::request::Segment::new();
    staged.insert_key(b"id".to_vec()).unwrap();
    staged.insert_value(Some(b"7".to_vec())).unwrap();
    assert_eq!(staged.size(), 1);

    let mut full = hooch_http::request::Segment::new();
    let mut i = 0;
    while i < 1023 {
        full.insert_key_value(b"k".to_vec(), None).unwrap();
        i += 1;
    }
    // A key staged while room was left cannot be completed once the
    // 1024th entry has filled the segment.
    full.insert_key(b"last".to_vec()).unwrap();
    full.insert_key_value(b"k".to_vec(), None).unwrap();
    assert_eq!(full.size(), 1024);
    assert_eq!(
        full.insert_value(None),
        Err(HttpError::CapacityExceeded)
    );
    assert_eq!(full.size(), 1024);
}

#[test]
fn parse_segment_capacity_exceeded() {
    // 1025 `&`-separated fragments overflow the parameter segment.
    let mut query = Vec::new();
    let mut i = 0;
    while i < 1025 {
        if i > 0 {
            query.push(b'&');
        }
        query.push(b'a');
        i += 1;
    }
    assert_eq!(
        Uri::parse_segment(query.as_slice()),
        Err(HttpError::CapacityExceeded)
    );
}

#[test]
fn is_match_oversized_query_is_capacity_exceeded() {
    let mut raw = b"/x?".to_vec();
    let mut i = 0;
    while i < 1025 {
        if i > 0 {
            raw.push(b'&');
        }
        raw.push(b'a');
        i += 1;
    }
    let uri = Uri(raw);
    assert_eq!(uri.is_match(b"/x"), Err(HttpError::CapacityExceeded));
}

#[test]
fn concrete_match_with_query() {
    let uri = Uri(b"/orders/42?full=true".to_vec());
    let params = uri.is_match(b"/orders/{id}").unwrap().unwrap();

    let mut path_segment = hooch_http::request::Segment::new();
    path_segment.insert_key_value(b"id".to_vec(), Some(b"42".to_vec())).unwrap();

    let mut query_segment = hooch_http::request::Segment::new();
    query_segment.insert_key_value(b"full".to_vec(), Some(b"true".to_vec())).unwrap();

    assert_eq!(params.path_segment(), &path_segment);
    assert_eq!(params.query_segment(), &query_segment);
}

#[test]
fn mismatched_literal_discards_captures() {
    // The capture succeeds but the trailing literal differs, so the whole
    // match fails and no partial captures leak out.
    let uri = Uri(b"/orders/42/seen".to_vec());
    assert_eq!(uri.is_match(b"/orders/{id}/gone").unwrap(), None);
    // A single differing literal character in the prefix also fails.
    let uri = Uri(b"/Orders/42".to_vec());
    assert_eq!(uri.is_match(b"/orders/{id}").unwrap(), None);
}

#[test]
fn query_splits_at_first_question_mark() {
    // Everything after the first `?` is query text, later `?` included.
    let uri = Uri(b"/a?x=1?y=2".to_vec());
    let params = uri.is_match(b"/a").unwrap().unwrap();

    let mut expected = hooch_http::request::Segment::new();
    expected.insert_key_value(b"x".to_vec(), Some(b"1?y=2".to_vec())).unwrap();

    assert_eq!(params.query_segment(), &expected);
}

#[test]
fn trailing_placeholder_may_capture_empty() {
    let uri = Uri(b"/a/".to_vec());
    let params = uri.is_match(b"/a/{id}").unwrap().unwrap();

    let mut expected = hooch_http::request::Segment::new();
    expected.insert_key_value(b"id".to_vec(), Some(b"".to_vec())).unwrap();

    assert_eq!(params.path_segment(), &expected);
}

#[test]
fn path_shorter_than_pattern_fails() {
    let uri = Uri(b"/a".to_vec());
    assert_eq!(uri.is_match(b"/abc").unwrap(), None);
    assert_eq!(uri.is_match(b"/abc/{id}").unwrap(), None);
}

#[test]
fn utf8_checker_accepts_and_rejects() {
    assert!(check_utf8(b"plain ascii"));
    // Two-, three- and four-byte sequences.
    let multi = [0xC3u8, 0xA9, 0xE2, 0x82, 0xAC, 0xF0, 0x9F, 0x98, 0x80];
    assert!(check_utf8(&multi));
    // A lone continuation byte.
    assert!(!check_utf8(&[0x80u8]));
    // A truncated two-byte sequence.
    assert!(!check_utf8(&[0xC3u8]));
    // An overlong encoding lead byte.
    assert!(!check_utf8(&[0xC0u8, 0xAF]));
    // A surrogate-range three-byte sequence.
    assert!(!check_utf8(&[0xEDu8, 0xA0, 0x80]));
}

#[test]
fn version_from_bytes_rejects_others() {
    assert_eq!(
        HttpVersion::from_bytes(b"HTTP/1.1"),
        Some(HttpVersion::OnePointOne)
    );
    assert_eq!(HttpVersion::from_bytes(b"HTTP/1.0"), None);
    assert_eq!(HttpMethod::from_bytes(b"get"), None);
}
