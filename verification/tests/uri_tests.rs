use hooch_http::request::Key;
use hooch_http::request::Params;
use hooch_http::request::Segment;
use hooch_http::request::Uri;
use hooch_http::request::Value;

#[test]
fn uri_is_match_no_parameterized() {
    let uri = Uri(b"/uri".to_vec());

    let expected_params = Params::new();

    assert_eq!(uri.is_match(b"/uri").unwrap(), Some(expected_params))
}

#[test]
fn ui_is_match_parameterized_single_arg() {
    let uri = Uri(b"/1244r2".to_vec());

    let params = uri.is_match(b"/{id}").unwrap().unwrap();

    let mut path_segment = Segment::new();
    path_segment.insert_key_value(b"id".to_vec(), Some(b"1244r2".to_vec())).unwrap();

    assert_eq!(params.path_segment(), &path_segment);
    assert_eq!(params.query_segment(), &Segment::new());
}

#[test]
fn uri_is_match_parameterized_and_query() {
    let uri = Uri(b"/orders/123?status=hello_matey&include=details".to_vec());

    let params = uri.is_match(b"/{orders_param}/123").unwrap().unwrap();

    let mut path_segment = Segment::new();
    path_segment.insert_key_value(b"orders_param".to_vec(), Some(b"orders".to_vec())).unwrap();

    let mut query_segment = Segment::new();
    query_segment.insert_key_value(b"status".to_vec(), Some(b"hello_matey".to_vec())).unwrap();
    query_segment.insert_key_value(b"include".to_vec(), Some(b"details".to_vec())).unwrap();

    assert_eq!(params.path_segment(), &path_segment);
    assert_eq!(params.query_segment(), &query_segment);
}

#[test]
fn uri_is_match_parameterized_multi_args() {
    let uri = Uri(b"/orders/status/123?status=shipped&include=details".to_vec());

    let params = uri.is_match(b"/{orders_param}/{field}/123").unwrap().unwrap();

    let mut path_segment = Segment::new();
    path_segment.insert_key_value(b"orders_param".to_vec(), Some(b"orders".to_vec())).unwrap();
    path_segment.insert_key_value(b"field".to_vec(), Some(b"status".to_vec())).unwrap();

    let mut query_segment = Segment::new();
    query_segment.insert_key_value(b"status".to_vec(), Some(b"shipped".to_vec())).unwrap();
    query_segment.insert_key_value(b"include".to_vec(), Some(b"details".to_vec())).unwrap();

    assert_eq!(params.path_segment(), &path_segment);
    assert_eq!(params.query_segment(), &query_segment);
}

#[test]
fn uri_is_match_parameterized_multi_args2() {
    let uri = Uri(b"/what/hello?this=value&is".to_vec());

    let params = uri.is_match(b"/what/{mate}").unwrap().unwrap();

    let mut path_segment = Segment::new();
    path_segment.insert_key_value(b"mate".to_vec(), Some(b"hello".to_vec())).unwrap();

    let mut query_segment = Segment::new();
    query_segment.insert_key_value(b"this".to_vec(), Some(b"value".to_vec())).unwrap();
    query_segment.insert_key_value(b"is".to_vec(), None).unwrap();

    assert_eq!(params.path_segment(), &path_segment);
    assert_eq!(params.query_segment(), &query_segment);
}

#[test]
fn uri_query_segment_params_parsing() {
    let segment = b"q=rust&&limit=10&debug&sort=asc";

    let actual = Uri::parse_segment(segment).unwrap();

    let mut expected = Segment::new();
    expected.insert_key_value(b"q".to_vec(), Some(b"rust".to_vec())).unwrap();
    expected.insert_key_value(b"".to_vec(), None).unwrap();
    expected.insert_key_value(b"limit".to_vec(), Some(b"10".to_vec())).unwrap();
    expected.insert_key_value(b"debug".to_vec(), None).unwrap();
    expected.insert_key_value(b"sort".to_vec(), Some(b"asc".to_vec())).unwrap();

    assert_eq!(actual, expected)
}

#[test]
fn path_segment_iter() {
    let mut path_segment = Segment::new();
    path_segment.insert_key_value(b"id".to_vec(), Some(b"123".to_vec())).unwrap();
    path_segment.insert_key_value(b"name".to_vec(), Some(b"hello".to_vec())).unwrap();

    path_segment.iter();

    assert_eq!(
        path_segment.next(),
        Some((Key(b"id".to_vec()), Some(Value(b"123".to_vec()))))
    );
    assert_eq!(
        path_segment.next(),
        Some((Key(b"name".to_vec()), Some(Value(b"hello".to_vec()))))
    );
    assert_eq!(path_segment.next(), None);
}

#[test]
fn query_segment_iter() {
    let mut query_segment = Segment::new();
    query_segment.insert_key_value(b"id".to_vec(), Some(b"123".to_vec())).unwrap();
    query_segment.insert_key_value(b"name".to_vec(), None).unwrap();

    query_segment.iter();
    assert_eq!(
        query_segment.next(),
        Some((Key(b"id".to_vec()), Some(Value(b"123".to_vec()))))
    );
    assert_eq!(query_segment.next(), Some((Key(b"name".to_vec()), None)));
    assert_eq!(query_segment.next(), None);
}
