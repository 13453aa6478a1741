use xyio::http::muncher::Event;
use xyio::http::muncher::Parse;
use xyio::http::reactor::Context;
use xyio::http::reactor::TcpSocket;
use xyio::http::reader::LineCounter;
use xyio::http::reader::Outcome;
use xyio::http::reader::Parsed;
use xyio::http::reader::Reader;
use xyio::http::refusal::Refusal;
use xyio::http::server::greeting_bytes;
use xyio::http::server::make_connection;
use xyio::http::server::Connection;
use xyio::http::server::ConnectionState;
use xyio::http::server::Dispatch;
use xyio::http::server::Handler;
use xyio::http::server::Next;
use xyio::http::server::PingDispatch;
use xyio::http::server::Request;
use xyio::http::server::Response;
use xyio::http::server::Writer;
use xyio::http::server::WriterState;
use xyio::operation::IoError;
use xyio::operation::Operation;
use xyio::operation::UserOperation;

fn response_of(version: &str, connection: &str) -> Vec<u8> {
    let mut bytes = format!(
        "HTTP/{} 200 OK\r\nServer: xyio/0.1.0\r\nContent-Length: 15\r\n\
         Connection: {}\r\nX-Powered-By: Cocaine\r\n\r\n",
        version, connection
    )
    .into_bytes();
    bytes.extend("\u{422}\u{44b} \u{43f}\u{438}\u{434}\u{43e}\u{440}".as_bytes());
    bytes
}

#[test]
fn a_request_is_cleared() {
    let mut request = Request::new();
    request.url.extend(b"/path");
    request.headers.extend(b"a");
    request.clear();
    assert!(request.url.is_empty() && request.headers.is_empty());
}

#[test]
fn responses_tell_version_and_connection() {
    let response = Response::new(3, vec![], (1, 1), true).finish();
    assert_eq!(3, response.id);
    assert_eq!(response_of("1.1", "Keep-Alive"), response.buf);
    let response = Response::new(0, b"x".to_vec(), (1, 0), false).finish();
    assert_eq!([b"x".to_vec(), response_of("1.0", "Close")].concat(), response.buf);
    assert_eq!(15, greeting_bytes().len());
}

#[test]
fn ping_answers_every_request_alike() {
    let mut request = Request::new();
    request.url.extend(b"/anything");
    let answer = PingDispatch.on_request(&request, Response::new(1, vec![], (1, 1), true));
    assert_eq!(1, answer.id);
    assert_eq!(response_of("1.1", "Keep-Alive"), answer.buf);
}

fn count(bytes: &[u8], text: &[u8]) -> usize {
    bytes.windows(text.len()).filter(|window| *window == text).count()
}

#[test]
fn a_response_tells_one_thing_about_the_connection() {
    let open = Response::new(0, vec![], (1, 1), true).finish().buf;
    let close = Response::new(0, vec![], (1, 1), false).finish().buf;
    assert_eq!(1, count(&open, b"Connection: Keep-Alive\r\n"));
    assert_eq!(0, count(&open, b"Connection: Close\r\n"));
    assert_eq!(0, count(&close, b"Connection: Keep-Alive\r\n"));
    assert_eq!(1, count(&close, b"Connection: Close\r\n"));
    let blank = open.windows(4).position(|window| window == b"\r\n\r\n").unwrap();
    assert_eq!(15, open.len() - blank - 4);
}

#[test]
fn requests_are_handed_on_with_a_buffer() {
    let mut state: ConnectionState<Reader> = ConnectionState::new();
    assert_eq!(64, state.bufs.len());
    let mut handler = Handler::new();
    for count in 0..64 {
        handler.on_message_begin(&mut state);
        assert!(handler.head && handler.request_line);
        assert_eq!(63 - count, state.bufs.len());
        handler.on_url(b"/a");
        handler.on_url(b"bc");
        handler.on_line_end();
        assert!(handler.head && !handler.request_line);
        handler.on_header_field();
        let (request, response) = handler.on_headers_complete((1, 1), true);
        assert_eq!(b"/abc".to_vec(), request.url);
        assert_eq!(count, response.id);
        assert!(response.buf.is_empty());
        assert!(handler.request.url.is_empty());
        assert!(!handler.head);
        // The parser is paused with the last free buffer.
        assert_eq!(count == 63, handler.on_message_complete(&state));
    }
    assert_eq!(64, handler.count);
    state.pause(Reader::new());
    let started = state.on_written(b"old response".to_vec());
    assert!(started.is_some());
    assert!(state.rd.is_none());
    assert_eq!(vec![Vec::<u8>::new()], state.bufs);
    assert!(state.on_written(vec![1]).is_none());
    handler.on_message_begin(&mut state);
    let (_, response) = handler.on_headers_complete((1, 1), true);
    assert_eq!(0, response.id);
}

#[test]
fn refused_requests_are_answered() {
    let mut state: ConnectionState<Reader> = ConnectionState::new();
    let mut handler = Handler::new();
    handler.on_message_begin(&mut state);
    handler.refuse();
    assert_eq!(Some(Refusal::UriTooLong), handler.refusal);
    assert_eq!(
        b"HTTP/1.1 414 URI Too Long\r\nServer: xyio/0.1.0\r\nContent-Length: 0\r\n\
          Connection: Close\r\n\r\n"
            .to_vec(),
        handler.on_refused().buf
    );
    let mut handler = Handler::new();
    handler.on_message_begin(&mut state);
    handler.on_line_end();
    handler.refuse();
    assert_eq!(Some(Refusal::BadRequest), handler.refusal);
    assert!(handler.on_refused().buf.starts_with(b"HTTP/1.1 400 Bad Request\r\n"));
}

fn feed(
    reader: &mut Reader,
    handler: &mut Handler,
    state: &mut ConnectionState<Reader>,
    data: &[u8],
) -> Outcome {
    reader.room()[..data.len()].copy_from_slice(data);
    let (next, outcome) =
        std::mem::replace(reader, Reader::new()).on_recv(Ok(data.len()), handler, state);
    *reader = next;
    outcome
}

/// Feeds a new connection in portions of the given size until it does not want more.
fn feed_all(data: &[u8], size: usize) -> (Handler, Outcome, usize) {
    let mut reader = Reader::new();
    let mut handler = Handler::new();
    let mut state = ConnectionState::new();
    let mut fed = 0;
    loop {
        let end = data.len().min(fed + size);
        let outcome = feed(&mut reader, &mut handler, &mut state, &data[fed..end]);
        fed = end;
        if outcome.next != Parsed::Receive || fed == data.len() {
            return (handler, outcome, fed);
        }
    }
}

#[test]
fn a_reader_hands_on_pipelined_requests() {
    let mut reader = Reader::new();
    let mut handler = Handler::new();
    let mut state = ConnectionState::new();
    let data = b"GET /one HTTP/1.1\r\nHost: a\r\n\r\nGET /two HTTP/1.1\r\n\r\nGET /th";
    let outcome = feed(&mut reader, &mut handler, &mut state, data);
    assert_eq!(Parsed::Receive, outcome.next);
    assert_eq!(2, outcome.requests.len());
    assert_eq!(b"/one".to_vec(), outcome.requests[0].0.url);
    assert_eq!((0, (1, 1), true), {
        let response = &outcome.requests[0].1;
        (response.id, response.version, response.keepalive)
    });
    assert_eq!(b"/two".to_vec(), outcome.requests[1].0.url);
    assert_eq!(1, outcome.requests[1].1.id);
    assert_eq!(61, state.bufs.len());
    assert_eq!(7, reader.lines.line);
    let outcome = feed(&mut reader, &mut handler, &mut state, b"ree HTTP/1.1\r\n\r\n");
    assert_eq!(1, outcome.requests.len());
    assert_eq!(b"/three".to_vec(), outcome.requests[0].0.url);
    assert_eq!(2, outcome.requests[0].1.id);
    assert_eq!(3, handler.count);
    let outcome = feed(&mut reader, &mut handler, &mut state, b"GET / HTTP/1.0\r\n\r\n");
    assert_eq!(Parsed::Receive, outcome.next);
    assert_eq!((3, (1, 0), false), {
        let response = &outcome.requests[0].1;
        (response.id, response.version, response.keepalive)
    });
}

#[test]
fn a_reader_does_not_mind_how_the_stream_is_cut() {
    let data = b"POST /a HTTP/1.1\r\nContent-Length: 5\r\n\r\nab\ncdGET /b HTTP/1.1\r\n\r\n";
    for size in 1..data.len() {
        let (handler, outcome, fed) = feed_all(data, size);
        assert_eq!(Parsed::Receive, outcome.next);
        assert_eq!(data.len(), fed);
        assert_eq!(2, handler.count);
    }
}

#[test]
fn a_reader_pauses_without_free_buffers_and_goes_on_behind_what_is_left_over() {
    let mut reader = Reader::new();
    let mut handler = Handler::new();
    let mut state = ConnectionState::new();
    state.bufs.truncate(2);
    let one = b"GET /a HTTP/1.1\r\n\r\n";
    let outcome = feed(&mut reader, &mut handler, &mut state, &one.repeat(3));
    assert_eq!(Parsed::Pause, outcome.next);
    assert_eq!(2, outcome.requests.len());
    assert_eq!(one.len(), reader.position);
    assert_eq!(one, &reader.buf[..one.len()]);
    state.pause(reader);

    let mut reader = state.on_written(b"answer".to_vec()).unwrap();
    let outcome = feed(&mut reader, &mut handler, &mut state, b"GET");
    assert_eq!(Parsed::Pause, outcome.next);
    assert_eq!(1, outcome.requests.len());
    assert_eq!(2, outcome.requests[0].1.id);
    assert_eq!(b"GET", &reader.buf[..reader.position]);
}

#[test]
fn a_reader_closes_on_what_is_no_http() {
    let mut reader = Reader::new();
    let mut handler = Handler::new();
    let mut state = ConnectionState::new();
    let outcome = feed(&mut reader, &mut handler, &mut state, b"\0\0\0\r\n\r\n");
    assert_eq!(Parsed::Close, outcome.next);
    assert!(outcome.requests.is_empty());
}

#[test]
fn nothing_is_parsed_behind_a_request_for_another_protocol() {
    let upgrade = b"GET /a HTTP/1.1\r\nConnection: Upgrade\r\nUpgrade: x\r\n\r\n".to_vec();
    let plain = b"GET /b HTTP/1.1\r\n\r\n".to_vec();
    let all = [upgrade.clone(), plain.clone()].concat();
    let (handler, outcome, _) = feed_all(&all, all.len());
    assert_eq!(Parsed::Close, outcome.next);
    assert_eq!(1, outcome.requests.len());
    assert_eq!(1, handler.count);
    // What is received later is parsed.
    let (handler, outcome, _) = feed_all(&all, upgrade.len());
    assert_eq!(Parsed::Receive, outcome.next);
    assert_eq!(2, handler.count);
    let all = [plain, upgrade].concat();
    let (handler, outcome, _) = feed_all(&all, all.len());
    assert_eq!(Parsed::Receive, outcome.next);
    assert_eq!(2, handler.count);
    let connect = b"CONNECT a:1 HTTP/1.1\r\n\r\n\0";
    let (_, outcome, _) = feed_all(connect, connect.len());
    assert_eq!(Parsed::Close, outcome.next);
    assert_eq!(1, outcome.requests.len());
}

#[test]
fn a_reader_ends_with_its_stream() {
    let reader = Reader::new();
    let mut handler = Handler::new();
    let mut state: ConnectionState<Reader> = ConnectionState::new();
    let (reader, outcome) = reader.on_recv(Ok(0), &mut handler, &mut state);
    assert_eq!(Parsed::Close, outcome.next);
    let (_, outcome) = reader.on_recv(Err(IoError::Os(104)), &mut handler, &mut state);
    assert_eq!(Parsed::Close, outcome.next);
    assert!(outcome.requests.is_empty());
}

#[test]
fn an_endless_request_line_is_refused_as_soon_as_it_does_not_fit() {
    let mut line = b"GET /".to_vec();
    line.resize(8000, b'a');
    for size in [1, 7, 1000, 4095, 4096] {
        let (handler, outcome, fed) = feed_all(&line, size);
        assert_eq!(Parsed::Refuse, outcome.next);
        assert_eq!(Some(Refusal::UriTooLong), handler.refusal);
        assert!(fed > 4096 && fed - size <= 4096);
    }
}

#[test]
fn blanks_of_a_request_line_count() {
    let mut line = b"GET".to_vec();
    line.resize(5003, b' ');
    line.extend(b"/ HTTP/1.1\r\n\r\n");
    let (handler, outcome, _) = feed_all(&line, 4096);
    assert_eq!(Parsed::Refuse, outcome.next);
    assert_eq!(Some(Refusal::UriTooLong), handler.refusal);
}

#[test]
fn a_request_line_that_fits_is_taken() {
    for (target, refused) in [(4083, false), (4084, true)] {
        // "GET", a blank, the target, a blank and "HTTP/1.1".
        let mut request = b"GET ".to_vec();
        request.resize(4 + target, b'/');
        request.extend(b" HTTP/1.1\r\n\r\n");
        for size in [1, 100, 4095, 4096] {
            let (handler, outcome, _) = feed_all(&request, size);
            assert_eq!(refused, outcome.next == Parsed::Refuse);
            assert_eq!(refused, handler.refusal == Some(Refusal::UriTooLong));
        }
    }
}

#[test]
fn a_header_field_is_measured_as_it_was_received() {
    for (blanks, value, refused) in [(1, 4093, false), (1, 4094, true), (5000, 1, true)] {
        let mut request = b"GET / HTTP/1.1\r\nHost: a\r\nN:".to_vec();
        request.extend(vec![b' '; blanks]);
        request.extend(vec![b'v'; value]);
        request.extend(b"\r\n\r\n");
        for size in [1, 100, 4096] {
            let (handler, outcome, _) = feed_all(&request, size);
            assert_eq!(refused, outcome.next == Parsed::Refuse);
            assert_eq!(refused, handler.refusal == Some(Refusal::BadRequest));
        }
    }
}

#[test]
fn a_folded_header_field_is_measured_as_one() {
    let mut request = b"GET / HTTP/1.1\r\nN: ".to_vec();
    request.extend(vec![b'v'; 3000]);
    request.extend(b"\r\n ");
    request.extend(vec![b'v'; 3000]);
    request.extend(b"\r\n\r\n");
    let (handler, outcome, _) = feed_all(&request, 4096);
    assert_eq!(Parsed::Refuse, outcome.next);
    assert_eq!(Some(Refusal::BadRequest), handler.refusal);
    // Two fields of that size fit.
    let mut request = b"GET / HTTP/1.1\r\nN: ".to_vec();
    request.extend(vec![b'v'; 3000]);
    request.extend(b"\r\nM: ");
    request.extend(vec![b'v'; 3000]);
    request.extend(b"\r\n\r\n");
    let (handler, outcome, _) = feed_all(&request, 4096);
    assert_eq!(Parsed::Receive, outcome.next);
    assert_eq!(1, handler.count);
}

#[test]
fn a_body_does_not_count() {
    let mut data = b"POST / HTTP/1.1\r\nContent-Length: 6000\r\n\r\n".to_vec();
    data.extend(vec![b'b'; 6000]);
    data.extend(b"GET /next HTTP/1.1\r\nHost: a\r\n\r\n");
    for size in [1, 999, 4000, 4096] {
        let (handler, outcome, fed) = feed_all(&data, size);
        assert_eq!(Parsed::Receive, outcome.next);
        assert_eq!(data.len(), fed);
        assert_eq!(2, handler.count);
    }
}

#[test]
fn a_given_parse_decides_alone() {
    let mut lines = LineCounter::new();
    let mut handler = Handler::new();
    let mut state: ConnectionState<Reader> = ConnectionState::new();
    let mut requests = vec![];
    let begun = Parse {
        nparsed: 6,
        events: vec![Event::MessageBegin, Event::Url(b"/x".to_vec())],
        paused: false,
    };
    let line = b"GET /x";
    let out = lines.on_line(line, &begun, false, &mut handler, &mut state, &mut requests);
    assert_eq!((false, false, false), out);
    assert_eq!(LineCounter { line: 6, ended: false }, lines);
    let nothing = Parse { nparsed: 2, events: vec![], paused: false };
    let out = lines.on_line(b"\r\n", &nothing, false, &mut handler, &mut state, &mut requests);
    assert_eq!((false, false, false), out);
    assert_eq!(LineCounter { line: 8, ended: true }, lines);
    assert!(!handler.request_line);
    let complete = Parse {
        nparsed: 2,
        events: vec![Event::HeadersComplete((1, 1), true), Event::MessageComplete],
        paused: false,
    };
    state.bufs.clear();
    let out = lines.on_line(b"\r\n", &complete, false, &mut handler, &mut state, &mut requests);
    assert_eq!((false, true, false), out);
    assert_eq!(1, requests.len());
    assert_eq!(LineCounter { line: 0, ended: true }, lines);
    // An error, a line that was not taken, and headers of a request that has no buffer.
    let out = lines.on_line(b"\r\n", &nothing, true, &mut handler, &mut state, &mut requests);
    assert_eq!((false, false, true), out);
    let out = lines.on_line(b"abc", &nothing, false, &mut handler, &mut state, &mut requests);
    assert_eq!((false, false, true), out);
    let out = lines.on_line(b"\r\n", &complete, false, &mut handler, &mut state, &mut requests);
    assert_eq!((true, false, false), out);
}

#[test]
fn nothing_is_handed_on_after_a_refusal() {
    let mut lines = LineCounter { line: 4096, ended: false };
    let mut handler = Handler::new();
    let mut state: ConnectionState<Reader> = ConnectionState::new();
    let mut requests = vec![];
    handler.on_message_begin(&mut state);
    let nothing = Parse { nparsed: 1, events: vec![], paused: false };
    lines.on_line(b"\r", &nothing, false, &mut handler, &mut state, &mut requests);
    assert_eq!(None, handler.refusal);
    lines.on_line(b"a", &nothing, false, &mut handler, &mut state, &mut requests);
    assert_eq!(Some(Refusal::UriTooLong), handler.refusal);
    let another = Parse {
        nparsed: 2,
        events: vec![Event::MessageBegin, Event::HeadersComplete((1, 1), true)],
        paused: false,
    };
    lines.on_line(b"\r\n", &another, false, &mut handler, &mut state, &mut requests);
    assert!(requests.is_empty());
    assert_eq!(63, state.bufs.len());
}

#[test]
fn a_writer_posts_whole_responses_until_it_fails() {
    let mut writer: Writer<u8, ()> = Writer::new(9);
    let mut ctx: Context<Vec<u8>> = Context::from_fd(3);
    assert_eq!(64, writer.bufs.len());
    assert_eq!(64, writer.callbacks.len());
    assert_eq!(Some(&9), writer.stream());
    assert!(writer.write(b"abc".to_vec(), Some(Ok(3)), |buf| buf, &mut ctx));
    assert!(matches!(writer.state, WriterState::Idle(9)));
    assert_eq!(1, ctx.queue.len());
    assert!(matches!(
        ctx.queue.pop_front(),
        Some(Operation::User(UserOperation::Call(buf))) if buf == b"abc"
    ));
    let failed = Some(Err(IoError::Os(32)));
    assert!(!writer.write(b"abc".to_vec(), failed, |buf| buf, &mut ctx));
    assert!(matches!(writer.state, WriterState::Flushing));
    assert_eq!(None, writer.stream());
    assert!(!writer.write(b"abc".to_vec(), None, |buf| buf, &mut ctx));
    assert!(ctx.queue.is_empty());
}

#[test]
fn a_connection_starts_with_its_reader() {
    let (connection, reader): (Connection<()>, Option<Reader>) =
        make_connection(TcpSocket { fd: 7 });
    assert_eq!(7, connection.rd.fd);
    assert_eq!(64, connection.state.bufs.len());
    assert!(connection.state.rd.is_none());
    assert_eq!(7, connection.writer.stream().unwrap().fd);
    let reader = reader.unwrap();
    assert_eq!(0, reader.position);
    assert_eq!(LineCounter { line: 0, ended: true }, reader.lines);
}

#[test]
fn a_connection_parks_its_paused_reader() {
    let (mut connection, reader): (Connection<()>, Option<Reader>) =
        make_connection(TcpSocket { fd: 7 });
    connection.state.bufs.truncate(1);
    let mut reader = reader.unwrap();
    let one = b"GET /a HTTP/1.1\r\n\r\n";
    reader.room()[..one.len()].copy_from_slice(one);
    let (requests, next) = connection.on_recv(reader, Ok(one.len()));
    assert_eq!(1, requests.len());
    assert!(matches!(next, Next::Pause));
    assert!(connection.state.rd.is_some());
    let mut reader = connection.state.on_written(vec![]).unwrap();
    assert!(connection.state.rd.is_none());

    reader.room()[..3].copy_from_slice(b"GET");
    let (requests, next) = connection.on_recv(reader, Ok(3));
    assert!(requests.is_empty());
    assert!(matches!(next, Next::Pause));
}

#[test]
fn a_connection_goes_on_refuses_and_closes() {
    let (mut connection, reader): (Connection<()>, Option<Reader>) =
        make_connection(TcpSocket { fd: 7 });
    let mut reader = reader.unwrap();
    reader.room().fill(b'G');
    reader.room()[..5].copy_from_slice(b"GET /");
    let (_, next) = connection.on_recv(reader, Ok(4096));
    let mut reader = match next {
        Next::Receive(reader) => reader,
        other => panic!("{:?}", other),
    };
    reader.room()[0] = b'G';
    let (_, next) = connection.on_recv(reader, Ok(1));
    match next {
        Next::Refuse(out) => {
            assert_eq!(0, out.id);
            assert!(out.buf.starts_with(b"HTTP/1.1 414 URI Too Long\r\n"));
        }
        other => panic!("{:?}", other),
    }
    let (_, next) = connection.on_recv(Reader::new(), Ok(0));
    assert!(matches!(next, Next::Close));
}
