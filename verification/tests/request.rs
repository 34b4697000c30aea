use file_exchange::request::{HttpRequest, Phase, LOG_CAPACITY, MAX_STALLED_READS};

fn read(bytes: &[u8]) -> (HttpRequest, usize) {
    let mut request = HttpRequest::new();
    let taken = request.feed_all(bytes);
    (request, taken)
}

#[test]
fn fresh_reader_waits_for_the_request_line() {
    let request = HttpRequest::new();
    assert_eq!(request.phase(), Phase::RequestLine);
    assert!(!request.at_body());
    assert_eq!(request.method(), None);
    assert_eq!(request.path(), None);
    assert_eq!(request.protocol(), None);
    assert!(request.headers().is_none());
    assert_eq!(request.read_all(), None);
}

#[test]
fn request_line_is_cut_at_its_first_two_spaces() {
    let (request, _) = read(b"PUT /report.txt HTTP/1.1\r\n");
    assert_eq!(request.phase(), Phase::HeaderBlock);
    assert_eq!(request.method(), Some(b"PUT".to_vec()));
    assert_eq!(request.path(), Some(b"/report.txt".to_vec()));
    assert_eq!(request.protocol(), Some(b"HTTP/1.1".to_vec()));
}

#[test]
fn protocol_keeps_later_spaces() {
    let (request, _) = read(b"GET /a b c\r\n");
    assert_eq!(request.method(), Some(b"GET".to_vec()));
    assert_eq!(request.path(), Some(b"/a".to_vec()));
    assert_eq!(request.protocol(), Some(b"b c".to_vec()));
}

#[test]
fn line_with_one_space_has_a_method_only() {
    let (request, _) = read(b"GET /index.html\r\n");
    assert_eq!(request.method(), Some(b"GET".to_vec()));
    assert_eq!(request.path(), None);
    assert_eq!(request.protocol(), None);
}

#[test]
fn line_without_space_has_no_method() {
    let (request, _) = read(b"GET\r\n");
    assert_eq!(request.phase(), Phase::HeaderBlock);
    assert_eq!(request.method(), None);
}

#[test]
fn accessors_give_nothing_while_the_line_is_incomplete() {
    let (request, taken) = read(b"GET / HTTP/1.1");
    assert_eq!(taken, 14);
    assert_eq!(request.phase(), Phase::RequestLine);
    assert_eq!(request.method(), None);
    assert_eq!(request.protocol(), None);
}

#[test]
fn failed_read_ends_the_request_line() {
    let mut request = HttpRequest::new();
    request.feed_all(b"GET / HTTP/1.1");
    request.feed(None);
    assert_eq!(request.phase(), Phase::HeaderBlock);
    assert_eq!(request.protocol(), Some(b"HTTP/1.1".to_vec()));
}

#[test]
fn stream_that_gives_nothing_gives_no_method() {
    let mut request = HttpRequest::new();
    request.feed(None);
    assert_eq!(request.phase(), Phase::HeaderBlock);
    assert_eq!(request.method(), None);
    assert_eq!(request.path(), None);
    assert_eq!(request.protocol(), None);
}

#[test]
fn carriage_returns_are_not_kept_in_the_line() {
    let (request, _) = read(b"GE\rT /x\r HTTP/1.1\r\n");
    assert_eq!(request.method(), Some(b"GET".to_vec()));
    assert_eq!(request.path(), Some(b"/x".to_vec()));
    assert_eq!(request.protocol(), Some(b"HTTP/1.1".to_vec()));
}

#[test]
fn lone_line_feed_does_not_end_the_line() {
    let (request, _) = read(b"GET /a\nb HTTP/1.1\r\n");
    assert_eq!(request.path(), Some(b"/a\nb".to_vec()));
}

#[test]
fn line_that_is_not_utf8_gives_nothing() {
    let (request, _) = read(b"GET /\xff HTTP/1.1\r\n");
    assert_eq!(request.phase(), Phase::HeaderBlock);
    assert_eq!(request.method(), None);
    assert_eq!(request.path(), None);
    assert_eq!(request.protocol(), None);
}

#[test]
fn body_begins_right_after_the_blank_line() {
    let raw = b"PUT /report.txt HTTP/1.1\r\nHost: example.org\r\nExpect: 100-continue\r\n\r\nhello";
    let (request, taken) = read(raw);
    assert!(request.at_body());
    assert_eq!(&raw[taken..], b"hello");
    assert_eq!(request.read_all(), Some(()));
    let headers = request.headers().unwrap();
    assert_eq!(headers.get(b"Host"), Some(&b"example.org".to_vec()));
    assert_eq!(headers.get(b"Expect"), Some(&b"100-continue".to_vec()));
    assert_eq!(headers.get(b"host"), None);
}

#[test]
fn request_without_headers_needs_two_more_line_ends() {
    let (request, taken) = read(b"GET / HTTP/1.1\r\n\r\n");
    assert_eq!(taken, 18);
    assert_eq!(request.phase(), Phase::HeaderBlock);
    let (request, taken) = read(b"GET / HTTP/1.1\r\n\r\n\r\nrest");
    assert_eq!(taken, 20);
    assert!(request.at_body());
    assert_eq!(request.headers().unwrap().count(), 0);
}

#[test]
fn accessors_are_the_same_on_every_call() {
    let (request, _) = read(b"DELETE /ab12cd/x HTTP/1.1\r\nA: 1\r\n\r\n");
    let first = (request.method(), request.path(), request.protocol());
    let second = (request.method(), request.path(), request.protocol());
    assert_eq!(first, second);
    assert_eq!(request.headers().unwrap().get(b"A"), request.headers().unwrap().get(b"A"));
}

#[test]
fn reads_after_the_head_change_nothing() {
    let (mut request, _) = read(b"GET /x HTTP/1.1\r\nA: 1\r\n\r\n");
    assert!(request.at_body());
    let before = (request.method(), request.path(), request.protocol(), request.describe());
    assert_eq!(request.feed_all(b"B: 2\r\n\r\n"), 0);
    request.feed(Some(b'x'));
    request.feed(None);
    let after = (request.method(), request.path(), request.protocol(), request.describe());
    assert_eq!(before, after);
    assert_eq!(request.headers().unwrap().get(b"B"), None);
}

#[test]
fn failed_read_counts_as_a_zero_byte_in_the_header_block() {
    let mut request = HttpRequest::new();
    request.feed_all(b"GET / HTTP/1.1\r\nA: 1\r\n\r");
    request.feed(None);
    request.feed_all(b"\nB: 2\r\n\r\n");
    assert!(request.at_body());
    let headers = request.headers().unwrap();
    assert_eq!(headers.get(b"A"), Some(&b"1".to_vec()));
    assert_eq!(headers.get(b"\0\nB"), None);
    assert_eq!(headers.get(b"B"), Some(&b"2".to_vec()));
}

#[test]
fn header_block_is_given_up_after_too_many_failed_reads() {
    let mut request = HttpRequest::new();
    request.feed_all(b"GET / HTTP/1.1\r\nA: 1\r\n");
    for _ in 0..MAX_STALLED_READS - 1 {
        request.feed(None);
        assert_eq!(request.phase(), Phase::HeaderBlock);
    }
    request.feed(None);
    assert!(request.at_body());
    assert!(request.headers().is_none());
    assert_eq!(request.read_all(), None);
    assert_eq!(request.method(), Some(b"GET".to_vec()));
}

#[test]
fn doubled_carriage_return_hides_a_blank_line() {
    let (request, taken) = read(b"GET / HTTP/1.1\r\nA: 1\r\n\r\r\n\r\nrest");
    assert_eq!(taken, 31);
    assert_eq!(request.phase(), Phase::HeaderBlock);
}

#[test]
fn header_block_that_is_not_utf8_gives_no_headers() {
    let (request, _) = read(b"GET / HTTP/1.1\r\nA: \xff\xfe\r\nB: 2\r\n\r\n");
    assert!(request.at_body());
    assert!(request.headers().is_none());
    assert_eq!(request.read_all(), None);
}

#[test]
fn record_keeps_what_was_sent() {
    let mut request = HttpRequest::new();
    request.respond_string("HTTP/1.1 200 Ok\r\n\r\n");
    request.respond_data(b"hello");
    let text = request.describe();
    assert_eq!(
        text,
        b"----- INCOMING -----\n< \r\n< \r\n< (BODY NOT DISPLAYED FOR MEMORY PURPOSES)\r\n----- OUTGOING -----\n> HTTP/1.1 200 Ok\r\n> \r\n> hello".to_vec()
    );
}

#[test]
fn record_is_cut_at_its_capacity() {
    let mut request = HttpRequest::new();
    let data = vec![b'a'; LOG_CAPACITY + 20];
    request.respond_data(&data);
    request.respond_data(b"more");
    let text = request.describe();
    let mut expected =
        b"----- INCOMING -----\n< \r\n< \r\n< (BODY NOT DISPLAYED FOR MEMORY PURPOSES)\r\n----- OUTGOING -----\n> ".to_vec();
    expected.extend_from_slice(&data[..LOG_CAPACITY]);
    expected.extend_from_slice(b"\r\n...");
    assert_eq!(text, expected);
}

#[test]
fn record_filled_to_the_brim_is_not_marked_as_cut() {
    let mut request = HttpRequest::new();
    request.respond_data(&vec![b'a'; LOG_CAPACITY - 3]);
    request.respond_data(b"xyz");
    let text = request.describe();
    assert!(text.ends_with(b"aaxyz"));
    request.respond_data(b"!");
    let text = request.describe();
    assert!(text.ends_with(b"aaxyz\r\n..."));
}

#[test]
fn description_shows_line_headers_and_reply() {
    let (mut request, _) = read(b"GET /x HTTP/1.1\r\nHost: h\r\nA: 1\r\n\r\n");
    request.respond_string("HTTP/1.1 410 Gone\r\n\r\ngone\r\n");
    assert_eq!(
        request.describe(),
        b"----- INCOMING -----\n< GET /x HTTP/1.1\r\n< Host: h\r\n< A: 1\r\n< \r\n< (BODY NOT DISPLAYED FOR MEMORY PURPOSES)\r\n----- OUTGOING -----\n> HTTP/1.1 410 Gone\r\n> \r\n> gone".to_vec()
    );
}

#[test]
fn silent_peer_is_given_up_from_the_start() {
    let mut request = HttpRequest::new();
    for _ in 0..MAX_STALLED_READS + 1 {
        assert!(!request.at_body());
        request.feed(None);
    }
    assert!(request.at_body());
    assert!(request.headers().is_none());
}

#[test]
fn fields_of_the_request_line_can_be_read_as_text() {
    let (request, _) = read("GET /caf\u{e9}/\u{1f600} HTTP/1.1\r\nX-\u{e9}: \u{fc}\r\n\r\n".as_bytes());
    assert_eq!(String::from_utf8(request.method().unwrap()).unwrap(), "GET");
    assert_eq!(String::from_utf8(request.path().unwrap()).unwrap(), "/caf\u{e9}/\u{1f600}");
    assert_eq!(String::from_utf8(request.protocol().unwrap()).unwrap(), "HTTP/1.1");
    let headers = request.headers().unwrap();
    assert_eq!(headers.count(), 1);
    let header = headers.entry(0);
    assert_eq!(String::from_utf8(header.name.clone()).unwrap(), "X-\u{e9}");
    assert_eq!(String::from_utf8(header.value.clone()).unwrap(), "\u{fc}");
}

#[test]
fn description_shows_a_repeated_name_once_with_its_last_value() {
    let (request, _) = read(b"GET /x HTTP/1.1\r\nA: 1\r\nB: 2\r\nA: 3\r\nC: 4\r\nB: 5\r\n\r\n");
    assert_eq!(
        request.describe(),
        b"----- INCOMING -----\n< GET /x HTTP/1.1\r\n< A: 3\r\n< C: 4\r\n< B: 5\r\n< \r\n< (BODY NOT DISPLAYED FOR MEMORY PURPOSES)\r\n----- OUTGOING -----\n".to_vec()
    );
}
