use xyio::http::connection::HttpConnection;
use xyio::http::connection::Next;
use xyio::http::connection::Reaction;
use xyio::http::parse::parse_head;
use xyio::http::parse::should_keep_alive;
use xyio::http::parse::Head;
use xyio::http::parse::Header;
use xyio::http::refusal::HeadScan;
use xyio::http::refusal::Refusal;
use xyio::http::server::greeting_bytes;
use xyio::operation::IoError;

const KEEP: &str = "HTTP/1.1 200 OK\r\nServer: xyio/0.1.0\r\nContent-Length: 15\r\n\
    Connection: Keep-Alive\r\nX-Powered-By: Cocaine\r\n\r\n";
const CLOSE: &str = "HTTP/1.1 200 OK\r\nServer: xyio/0.1.0\r\nContent-Length: 15\r\n\
    Connection: Close\r\nX-Powered-By: Cocaine\r\n\r\n";

fn feed(connection: &mut HttpConnection<()>, data: &[u8]) -> Reaction {
    connection.buf()[..data.len()].copy_from_slice(data);
    connection.complete_read(Ok(data.len()))
}

fn pending(connection: &HttpConnection<()>) -> Vec<u8> {
    connection.response.with(|iov: &[&[u8]]| iov.concat())
}

fn answer(head: &str) -> Vec<u8> {
    let mut bytes = head.as_bytes().to_vec();
    bytes.extend(greeting_bytes());
    bytes
}

fn header(name: &str, value: &str) -> Header {
    Header { name: name.as_bytes().to_vec(), value: value.as_bytes().to_vec() }
}

#[test]
fn heads_are_parsed() {
    match parse_head(b"GET / HTTP/1.1\r\nHost: a\r\nConnection: Close\r\n\r\nrest") {
        Head::Complete(headers) => {
            assert_eq!(2, headers.len());
            assert_eq!(b"Host".to_vec(), headers[0].name);
            assert_eq!(b"a".to_vec(), headers[0].value);
            assert_eq!(b"Connection".to_vec(), headers[1].name);
            assert_eq!(b"Close".to_vec(), headers[1].value);
        }
        other => panic!("{:?}", other),
    }
    assert!(matches!(parse_head(b"GET / HTTP/1.1\r\nHost: a\r\n"), Head::Partial));
    assert!(matches!(parse_head(b""), Head::Partial));
    assert!(matches!(parse_head(b"\0\0\0\r\n\r\n"), Head::Malformed));
}

#[test]
fn more_than_sixty_four_headers_are_malformed() {
    let mut request = "GET / HTTP/1.1\r\n".to_string();
    for _ in 0..64 {
        request.push_str("A: b\r\n");
    }
    assert!(matches!(parse_head(format!("{}\r\n", request).as_bytes()), Head::Complete(_)));
    request.push_str("A: b\r\n");
    assert!(matches!(parse_head(format!("{}\r\n", request).as_bytes()), Head::Malformed));
}

#[test]
fn only_the_exact_header_closes() {
    assert!(should_keep_alive(&vec![]));
    assert!(!should_keep_alive(&vec![header("Host", "a"), header("Connection", "Close")]));
    assert!(should_keep_alive(&vec![header("Connection", "close")]));
    assert!(should_keep_alive(&vec![header("connection", "Close")]));
    assert!(should_keep_alive(&vec![header("Connection", "Keep-Alive")]));
}

#[test]
fn lines_of_a_head_are_measured() {
    let start = |request_line| HeadScan::Line { request_line, len: 0, cr: false };
    assert_eq!(start(true), HeadScan::new());
    assert_eq!(start(true), HeadScan::new().read(b""));
    assert_eq!(start(true), HeadScan::new().read(b"\r\n\n"));
    assert_eq!(start(false), HeadScan::new().read(b"\r\nGET /\n"));
    assert_eq!(HeadScan::Ended, HeadScan::new().read(b"GET / HTTP/1.1\r\nA: b\r\n\r\n"));
    assert_eq!(HeadScan::Ended, HeadScan::new().read(b"GET /\n\nrest"));
    let partial = HeadScan::Line { request_line: true, len: 5, cr: true };
    assert_eq!(partial, HeadScan::new().read(b"GET \r"));
    for (len, cr) in [(4095, 1), (4096, 0), (4096, 1)] {
        let line = [vec![b'a'; len], vec![b'\r'; cr]].concat();
        let scan = HeadScan::new().read(&line);
        assert_eq!(HeadScan::Line { request_line: true, len: len + cr, cr: cr == 1 }, scan);
        assert_eq!(start(false), scan.read(b"\n"));
    }
    for (len, cr) in [(4097, 0), (4096, 2), (5000, 0)] {
        let line = [vec![b'a'; len], vec![b'\r'; cr]].concat();
        let refused = HeadScan::TooLong(Refusal::UriTooLong);
        assert_eq!(refused, HeadScan::new().read(&line));
        assert_eq!(refused, HeadScan::new().read(&line).read(b"\r\n\r\n"));
        assert_eq!(HeadScan::TooLong(Refusal::BadRequest), start(false).read(&line));
    }
}

#[test]
fn a_request_is_answered_and_the_connection_goes_on() {
    let mut connection = HttpConnection::new(());
    assert_eq!(4096, connection.buf().len());
    let reaction = feed(&mut connection, b"GET / HTTP/1.1\r\nHost: a\r\n\r\n");
    assert_eq!(Reaction { dispatch: true, next: Next::Write }, reaction);
    assert_eq!(answer(KEEP), pending(&connection));
    assert_eq!(15, greeting_bytes().len());
    let size = pending(&connection).len();
    assert_eq!(Next::Read, connection.complete_write(Ok(size)));
    assert_eq!(4096, connection.buf().len());
    let reaction = feed(&mut connection, b"GET /2 HTTP/1.1\r\n\r\n");
    assert_eq!(Next::Write, reaction.next);
    assert_eq!(answer(KEEP), pending(&connection));
}

#[test]
fn a_connection_is_dropped_after_the_answer_to_a_close() {
    let mut connection = HttpConnection::new(());
    let reaction = feed(&mut connection, b"GET / HTTP/1.1\r\nConnection: Close\r\n\r\n");
    assert_eq!(Next::Write, reaction.next);
    assert_eq!(answer(CLOSE), pending(&connection));
    let size = pending(&connection).len();
    assert_eq!(Next::Write, connection.complete_write(Ok(17)));
    assert_eq!(answer(CLOSE)[17..].to_vec(), pending(&connection));
    assert_eq!(Next::Drop, connection.complete_write(Ok(size - 17)));
}

#[test]
fn a_request_in_parts_is_parsed_as_one() {
    let mut connection = HttpConnection::new(());
    let reaction = feed(&mut connection, b"GET / HT");
    assert_eq!(Reaction { dispatch: true, next: Next::Read }, reaction);
    assert_eq!(4088, connection.buf().len());
    let reaction = feed(&mut connection, b"TP/1.1\r\nConnection: Cl");
    assert_eq!(Next::Read, reaction.next);
    let reaction = feed(&mut connection, b"ose\r\n\r\n");
    assert_eq!(Next::Write, reaction.next);
    assert_eq!(answer(CLOSE), pending(&connection));
    assert_eq!(0, connection.nread);
}

/// Feeds a request in reads of at most the given size until it is answered or dropped.
fn feed_all(connection: &mut HttpConnection<()>, request: &[u8], size: usize) -> Reaction {
    let mut fed = 0;
    loop {
        let room = connection.buf().len();
        let end = request.len().min(fed + size.min(room));
        let reaction = feed(connection, &request[fed..end]);
        fed = end;
        if reaction.next != Next::Read || fed == request.len() {
            return reaction;
        }
    }
}

#[test]
fn an_endless_request_line_is_answered_414() {
    for size in [1, 100, 4096] {
        let mut connection = HttpConnection::new(());
        let mut request = b"GET /".to_vec();
        request.resize(4096, b'a');
        let reaction = feed_all(&mut connection, &request, size);
        assert_eq!(Reaction { dispatch: true, next: Next::Read }, reaction);
        let reaction = feed(&mut connection, b"a");
        assert_eq!(Reaction { dispatch: false, next: Next::Write }, reaction);
        assert_eq!(
            b"HTTP/1.1 414 URI Too Long\r\nServer: xyio/0.1.0\r\nContent-Length: 0\r\n\
              Connection: Close\r\n\r\n"
                .to_vec(),
            pending(&connection)
        );
        let size = connection.response.size;
        assert_eq!(Next::Drop, connection.complete_write(Ok(size)));
    }
}

#[test]
fn an_endless_header_is_answered_400() {
    for size in [1, 100, 2000, 4096] {
        let mut connection = HttpConnection::new(());
        let mut request = b"GET / HTTP/1.1\r\n".to_vec();
        request.resize(16 + 4096, b'a');
        assert_eq!(Next::Read, feed_all(&mut connection, &request, size).next);
        let reaction = feed(&mut connection, b"a");
        assert_eq!(Next::Write, reaction.next);
        assert!(pending(&connection).starts_with(b"HTTP/1.1 400 Bad Request\r\n"));
        let size = connection.response.size;
        assert_eq!(size, pending(&connection).len());
        assert_eq!(Next::Drop, connection.complete_write(Ok(size)));
    }
}

#[test]
fn a_long_header_behind_short_ones_is_answered_400() {
    let mut request = b"GET / HTTP/1.1\r\n".to_vec();
    for _ in 0..50 {
        request.extend(b"A: ");
        request.extend(vec![b'a'; 100]);
        request.extend(b"\r\n");
    }
    request.extend(b"B: ");
    request.extend(vec![b'b'; 4094]);
    let mut connection = HttpConnection::new(());
    assert_eq!(Next::Write, feed_all(&mut connection, &request, 4096).next);
    assert!(pending(&connection).starts_with(b"HTTP/1.1 400 Bad Request\r\n"));
}

#[test]
fn a_head_of_short_lines_that_does_not_fit_is_dropped_without_an_answer() {
    let mut request = b"GET / HTTP/1.1\r\n".to_vec();
    for _ in 0..50 {
        request.extend(b"A: ");
        request.extend(vec![b'a'; 100]);
        request.extend(b"\r\n");
    }
    request.extend(b"\r\n");
    for size in [1, 100, 4096] {
        let mut connection = HttpConnection::new(());
        let reaction = feed_all(&mut connection, &request, size);
        assert_eq!(Reaction { dispatch: false, next: Next::Drop }, reaction);
        assert_eq!(0, connection.response.size);
    }
}

#[test]
fn a_request_line_that_fills_the_buffer_is_not_refused() {
    let mut request = b"GET ".to_vec();
    request.resize(4096 - 9, b'/');
    request.extend(b" HTTP/1.1\r\n\r\n");
    for size in [1, 100, 4096] {
        let mut connection = HttpConnection::new(());
        assert_eq!(Next::Drop, feed_all(&mut connection, &request, size).next);
        assert_eq!(0, connection.response.size);
    }
    // A head that fills the buffer with its end is answered.
    let mut request = b"GET ".to_vec();
    request.resize(4096 - 13, b'/');
    request.extend(b" HTTP/1.1\r\n\r\n");
    let mut connection = HttpConnection::new(());
    assert_eq!(Next::Write, feed_all(&mut connection, &request, 4096).next);
    assert_eq!(answer(KEEP), pending(&connection));
}

#[test]
fn what_is_no_http_is_dropped_without_an_answer() {
    let mut connection = HttpConnection::new(());
    let reaction = feed(&mut connection, b"\0\0\0\r\n\r\n");
    assert_eq!(Reaction { dispatch: false, next: Next::Drop }, reaction);
}

#[test]
fn the_end_of_the_stream_and_failures_drop_the_connection() {
    let mut connection = HttpConnection::new(());
    let dropped = Reaction { dispatch: false, next: Next::Drop };
    assert_eq!(dropped, connection.complete_read(Ok(0)));
    assert_eq!(dropped, connection.complete_read(Err(IoError::Os(104))));
    assert_eq!(Next::Drop, connection.complete_write(Err(IoError::Os(32))));
}

#[test]
fn a_given_head_decides_alone() {
    let mut connection = HttpConnection::new(());
    let reaction = connection.on_head(10, Head::Complete(vec![header("Connection", "Close")]));
    assert_eq!(Reaction { dispatch: true, next: Next::Write }, reaction);
    assert!(!connection.keep_alive);
    let reaction = connection.on_head(10, Head::Complete(vec![]));
    assert_eq!(Next::Write, reaction.next);
    assert_eq!(answer(KEEP), pending(&connection));
    assert!(!connection.keep_alive);
    assert_eq!(Next::Read, connection.on_head(10, Head::Partial).next);
    assert_eq!(10, connection.nread);
}

#[test]
fn a_connection_hands_out_its_pieces() {
    let mut connection = HttpConnection::new(());
    feed(&mut connection, b"GET / HTTP/1.1\r\n\r\n");
    let sent = connection.with_iov(|iov| Ok(iov.iter().map(|piece| piece.len()).sum()));
    assert_eq!(Ok(connection.response.size), sent);
    assert_eq!(Err(IoError::WouldBlock), connection.with_iov(|_| Err(IoError::WouldBlock)));
}

#[test]
fn refusals_have_their_status_lines() {
    assert_eq!("HTTP/1.1 414 URI Too Long\r\n", Refusal::UriTooLong.status());
    assert_eq!("HTTP/1.1 400 Bad Request\r\n", Refusal::BadRequest.status());
}
