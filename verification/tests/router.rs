use file_exchange::request::HttpRequest;
use file_exchange::router::{
    classify, dispatch, handle_connection, refusal, Dispatch, Method, BAD_REQUEST,
    METHOD_NOT_ALLOWED,
};

#[test]
fn methods_are_told_in_any_case() {
    assert_eq!(classify(b"GET"), Method::Get);
    assert_eq!(classify(b"get"), Method::Get);
    assert_eq!(classify(b"Put"), Method::Put);
    assert_eq!(classify(b"DELETE"), Method::Delete);
    assert_eq!(classify(b"\tdelete"), Method::Delete);
}

#[test]
fn other_methods_are_kept_as_received() {
    assert_eq!(classify(b"POST"), Method::Other(b"POST".to_vec()));
    assert_eq!(classify(b" Patch"), Method::Other(b" Patch".to_vec()));
    assert_eq!(classify(b""), Method::Other(Vec::new()));
}

#[test]
fn requests_go_to_the_handler_of_their_method() {
    assert_eq!(dispatch(Some(b"HTTP/1.1"), Some(b"GET")), Dispatch::Get);
    assert_eq!(dispatch(Some(b"HTTP/1.1"), Some(b"put")), Dispatch::Put);
    assert_eq!(dispatch(Some(b"HTTP/1.1"), Some(b"Delete")), Dispatch::Delete);
    assert_eq!(dispatch(Some(b"undefined"), Some(b"GET")), Dispatch::Get);
}

#[test]
fn unknown_method_is_not_allowed() {
    assert_eq!(dispatch(Some(b"HTTP/1.1"), Some(b"POST")), Dispatch::MethodNotAllowed);
    assert_eq!(dispatch(Some(b"undefined"), Some(b"HEAD")), Dispatch::MethodNotAllowed);
}

#[test]
fn other_protocols_are_not_accepted() {
    assert_eq!(dispatch(Some(b"HTTP/1.0"), Some(b"GET")), Dispatch::UnknownProtocol);
    assert_eq!(dispatch(Some(b"http/1.1"), Some(b"GET")), Dispatch::UnknownProtocol);
    assert_eq!(dispatch(Some(b"HTTP/1.1 "), Some(b"GET")), Dispatch::UnknownProtocol);
    assert_eq!(dispatch(Some(b""), Some(b"GET")), Dispatch::UnknownProtocol);
    assert_eq!(dispatch(Some(b"HTTP/2"), None), Dispatch::UnknownProtocol);
}

#[test]
fn unreadable_request_line_is_a_bad_request() {
    assert_eq!(dispatch(None, None), Dispatch::BadRequest);
    assert_eq!(dispatch(None, Some(b"GET")), Dispatch::BadRequest);
    assert_eq!(dispatch(Some(b"HTTP/1.1"), None), Dispatch::BadRequest);
}

#[test]
fn replies_to_requests_that_no_handler_takes() {
    assert_eq!(
        refusal(Dispatch::MethodNotAllowed),
        Some(b"HTTP/1.1 405 Method Not Allowed\r\n\r\nUnknown request method. Allowed methods: \"GET\", \"PUT\", \"DELETE\".\r\n".to_vec())
    );
    assert_eq!(
        refusal(Dispatch::BadRequest),
        Some(b"HTTP/1.1 400 Bad Request\r\n\r\nUnknown request method. Allowed methods: \"GET\", \"PUT\", \"DELETE\".\r\n".to_vec())
    );
    assert_eq!(refusal(Dispatch::Get), None);
    assert_eq!(refusal(Dispatch::Put), None);
    assert_eq!(refusal(Dispatch::Delete), None);
    assert_eq!(METHOD_NOT_ALLOWED.as_bytes(), refusal(Dispatch::MethodNotAllowed).unwrap());
    assert_eq!(BAD_REQUEST.as_bytes(), refusal(Dispatch::BadRequest).unwrap());
}

#[test]
fn request_that_was_read_is_dispatched() {
    let mut request = HttpRequest::new();
    request.feed_all(b"put /report.txt HTTP/1.1\r\n");
    assert_eq!(handle_connection(&request), Dispatch::Put);
    let mut request = HttpRequest::new();
    request.feed_all(b"BREW /pot HTCPCP/1.0\r\n");
    assert_eq!(handle_connection(&request), Dispatch::UnknownProtocol);
    let mut request = HttpRequest::new();
    request.feed_all(b"BREW /pot HTTP/1.1\r\n");
    assert_eq!(handle_connection(&request), Dispatch::MethodNotAllowed);
}

#[test]
fn request_without_protocol_is_a_bad_request() {
    let mut request = HttpRequest::new();
    request.feed_all(b"GET /index.html\r\n");
    assert_eq!(handle_connection(&request), Dispatch::BadRequest);
    let mut request = HttpRequest::new();
    request.feed(None);
    assert_eq!(handle_connection(&request), Dispatch::BadRequest);
    assert_eq!(handle_connection(&HttpRequest::new()), Dispatch::BadRequest);
}

#[test]
fn nothing_is_sent_back_for_a_protocol_that_is_not_accepted() {
    assert_eq!(refusal(Dispatch::UnknownProtocol), None);
    for line in ["GET /x HTTP/1.0\r\n", "GET /x http/1.1\r\n", "GET /x HTTP/1.1 extra\r\n"] {
        let mut request = HttpRequest::new();
        request.feed_all(line.as_bytes());
        let to = handle_connection(&request);
        assert_eq!(to, Dispatch::UnknownProtocol);
        assert_eq!(refusal(to), None);
    }
}

#[test]
fn white_space_of_unicode_around_a_method_is_passed_over() {
    assert_eq!(classify("\u{a0}GET".as_bytes()), Method::Get);
    assert_eq!(classify("put\u{2003}".as_bytes()), Method::Put);
    assert_eq!(dispatch(Some(b"HTTP/1.1"), Some("\u{85}Delete".as_bytes())), Dispatch::Delete);
    assert_eq!(
        classify("\u{200b}GET".as_bytes()),
        Method::Other("\u{200b}GET".as_bytes().to_vec())
    );
}
