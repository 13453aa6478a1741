//! An HTTP connection that reads one request at a time and answers it before the next.

use vstd::prelude::*;
use vstd::string::*;

use crate::http::message::code_ok;
use crate::http::message::cut;
use crate::http::message::law_additions_are_counted;
use crate::http::message::law_first_write_is_whole;
use crate::http::message::law_parts_in_order;
use crate::http::message::law_status_is_counted;
use crate::http::message::pieces;
use crate::http::message::Response;
use crate::http::message::ResponseView;
use crate::http::message::MAX_SEGMENTS;
use crate::http::parse::head_view;
use crate::http::parse::keeps_alive;
use crate::http::parse::law_close_is_heard;
use crate::http::parse::parse_head;
use crate::http::parse::parsed_head;
use crate::http::parse::should_keep_alive;
use crate::http::parse::Head;
use crate::http::parse::MAX_HEADERS;
use crate::http::refusal::law_head_portions_add_up;
use crate::http::refusal::lemma_no_line_too_long;
use crate::http::refusal::HeadScan;
use crate::http::refusal::Refusal;
use crate::http::refusal::READ_BUFFER_SIZE;
use crate::http::server::connection_header;
use crate::http::server::greeting;
use crate::http::server::greeting_bytes;
use crate::http::server::refusal_bytes;
use crate::http::server::response_bytes;
use crate::operation::IoError;
use crate::text::decimal;

verus! {

/// What a connection does next.
#[derive(Clone, Copy, Debug, PartialEq, Eq, Structural)]
pub enum Next {
    /// Nothing more: it is dropped.
    Drop,
    /// It reads more of a request.
    Read,
    /// It writes its response, or more of it.
    Write,
}

/// What comes of a read.
#[derive(Clone, Copy, Debug, PartialEq, Eq, Structural)]
pub struct Reaction {
    /// Whether the dispatcher is told of the request.
    pub dispatch: bool,
    pub next: Next,
}

/// A connection.
#[derive(Debug)]
pub struct HttpConnection<D> {
    /// Read buffer for status line, headers and body.
    ///
    /// A request line cannot exceed the size of the buffer, or the 414 (URI Too Long)
    /// error is returned to the client.
    /// A request header field cannot exceed the size of the buffer as well, or the 400 error
    /// is returned to the client.
    /// The whole head has to fit into the buffer to be answered otherwise: a connection with a
    /// head that does not, though each of its lines does, is dropped without an answer.
    /// If after the end of request processing a connection is transitioned into the
    /// keep-alive state, this buffer is not released.
    pub rdbuf: Vec<u8>,
    /// Left position of the buffer from where reading should be continued while reading HTTP
    /// status line with headers.
    pub nread: usize,
    /// How far a head has been read that does not fit into the buffer, if there is one.
    pub overrun: Option<HeadScan>,
    pub keep_alive: bool,
    pub response: Response,
    /// Request dispatcher.
    pub dispatch: D,
}

/// What a [`HttpConnection`] holds.
#[verifier::ext_equal]
pub struct ConnectionView<D> {
    pub rdbuf: Seq<u8>,
    pub nread: int,
    pub overrun: Option<HeadScan>,
    pub keep_alive: bool,
    pub response: ResponseView,
    pub dispatch: D,
}

impl<D> View for HttpConnection<D> {
    type V = ConnectionView<D>;

    open spec fn view(&self) -> ConnectionView<D> {
        ConnectionView {
            rdbuf: self.rdbuf@,
            nread: self.nread as int,
            overrun: self.overrun,
            keep_alive: self.keep_alive,
            response: self.response@,
            dispatch: self.dispatch,
        }
    }
}

/// The response to a request that has been read to the end of its headers.
pub open spec fn answer(keep_alive: bool) -> ResponseView {
    ResponseView::initial()
        .with_status(code_ok().spec_bytes())
        .with_header("Server: xyio/0.1.0\r\n".spec_bytes())
        .with_header("Content-Length: 15\r\n".spec_bytes())
        .with_header(connection_header(keep_alive))
        .with_header("X-Powered-By: Cocaine\r\n".spec_bytes())
        .with_data("\r\n".spec_bytes())
        .with_data(greeting())
}

/// The response to a request with a line that does not fit into the read buffer.
pub open spec fn refusal_answer(refusal: Refusal) -> ResponseView {
    ResponseView::initial()
        .with_status(refusal.status_spec().spec_bytes())
        .with_header("Server: xyio/0.1.0\r\n".spec_bytes())
        .with_header("Content-Length: 0\r\n".spec_bytes())
        .with_header(connection_header(false))
        .with_data("\r\n".spec_bytes())
}

impl<D> ConnectionView<D> {
    /// Before the first read.
    pub open spec fn initial(dispatch: D) -> Self {
        ConnectionView {
            rdbuf: Seq::new(READ_BUFFER_SIZE as nat, |i: int| 0u8),
            nread: 0,
            overrun: None,
            keep_alive: true,
            response: ResponseView::initial(),
            dispatch,
        }
    }

    /// The buffer has its size, and there is room in it to read into: all of it where the head
    /// is not kept.
    pub open spec fn wf(self) -> bool {
        &&& self.rdbuf.len() == READ_BUFFER_SIZE
        &&& 0 <= self.nread < READ_BUFFER_SIZE
        &&& self.overrun matches Some(scan) ==> self.nread == 0 && scan.wf()
    }

    /// The connection once a head that does not fit into the buffer has been read as far as
    /// `scan`.
    pub open spec fn overran(self, scan: HeadScan, dispatch: bool) -> (Self, Reaction) {
        match scan {
            HeadScan::Line { request_line, len, cr } => (
                ConnectionView { nread: 0, overrun: Some(scan), ..self },
                Reaction { dispatch, next: Next::Read },
            ),
            HeadScan::TooLong(refusal) => (
                ConnectionView {
                    nread: 0,
                    overrun: None,
                    keep_alive: false,
                    response: refusal_answer(refusal),
                    ..self
                },
                Reaction { dispatch, next: Next::Write },
            ),
            HeadScan::Ended => (self, Reaction { dispatch, next: Next::Drop }),
        }
    }

    /// The connection once the first `len` bytes of its buffer have been found to be `head`.
    pub open spec fn headed(self, len: int, head: Option<Option<Seq<(Seq<u8>, Seq<u8>)>>>) -> (
        Self,
        Reaction,
    ) {
        match head {
            None => (self, Reaction { dispatch: false, next: Next::Drop }),
            Some(None) => if len < READ_BUFFER_SIZE {
                (
                    ConnectionView { nread: len, overrun: None, ..self },
                    Reaction { dispatch: true, next: Next::Read },
                )
            } else {
                self.overran(HeadScan::line_start(true).bytes(self.rdbuf.take(len)), true)
            },
            Some(Some(headers)) => (
                ConnectionView {
                    nread: 0,
                    overrun: None,
                    keep_alive: self.keep_alive && keeps_alive(headers),
                    response: answer(keeps_alive(headers)),
                    ..self
                },
                Reaction { dispatch: true, next: Next::Write },
            ),
        }
    }

    /// The connection once a read has ended in `result`.
    pub open spec fn read(self, result: Result<usize, IoError>) -> (Self, Reaction) {
        match result {
            Ok(n) => if n == 0 {
                (self, Reaction { dispatch: false, next: Next::Drop })
            } else {
                match self.overrun {
                    Some(scan) => self.overran(scan.bytes(self.rdbuf.take(n as int)), false),
                    None => self.headed(
                        self.nread + n,
                        parsed_head(self.rdbuf.take(self.nread + n), MAX_HEADERS as nat),
                    ),
                }
            },
            Err(_) => (self, Reaction { dispatch: false, next: Next::Drop }),
        }
    }

    /// The connection once a write has ended in `result`.
    pub open spec fn written(self, result: Result<usize, IoError>) -> (Self, Next) {
        match result {
            Ok(n) => {
                let nwritten = self.response.nwritten + n;
                let response = ResponseView { nwritten, ..self.response };
                let next = if response.nwritten != response.size {
                    Next::Write
                } else if self.keep_alive {
                    Next::Read
                } else {
                    Next::Drop
                };
                (ConnectionView { response, ..self }, next)
            },
            Err(_) => (self, Next::Drop),
        }
    }
}

/// How long the fixed parts of a response are.
proof fn lemma_lengths()
    ensures
        code_ok().spec_bytes().len() == 17,
        Refusal::UriTooLong.status_spec().spec_bytes().len() == 27,
        Refusal::BadRequest.status_spec().spec_bytes().len() == 26,
        "Server: xyio/0.1.0\r\n".spec_bytes().len() == 20,
        "Content-Length: 15\r\n".spec_bytes().len() == 20,
        "Content-Length: 0\r\n".spec_bytes().len() == 19,
        connection_header(true).len() == 24,
        connection_header(false).len() == 19,
        "X-Powered-By: Cocaine\r\n".spec_bytes().len() == 23,
        "\r\n".spec_bytes().len() == 2,
{
    broadcast use is_ascii_spec_bytes;

    reveal_strlit("HTTP/1.1 200 OK\r\n");
    reveal_strlit("HTTP/1.1 414 URI Too Long\r\n");
    reveal_strlit("HTTP/1.1 400 Bad Request\r\n");
    reveal_strlit("Server: xyio/0.1.0\r\n");
    reveal_strlit("Content-Length: 15\r\n");
    reveal_strlit("Content-Length: 0\r\n");
    reveal_strlit("Connection: Keep-Alive\r\n");
    reveal_strlit("Connection: Close\r\n");
    reveal_strlit("X-Powered-By: Cocaine\r\n");
    reveal_strlit("\r\n");
    assert(is_ascii(code_ok()));
    assert(is_ascii(Refusal::UriTooLong.status_spec()));
    assert(is_ascii(Refusal::BadRequest.status_spec()));
    assert(is_ascii("Server: xyio/0.1.0\r\n"));
    assert(is_ascii("Content-Length: 15\r\n"));
    assert(is_ascii("Content-Length: 0\r\n"));
    assert(is_ascii("Connection: Keep-Alive\r\n"));
    assert(is_ascii("Connection: Close\r\n"));
    assert(is_ascii("X-Powered-By: Cocaine\r\n"));
    assert(is_ascii("\r\n"));
}

impl<D> HttpConnection<D> {
    /// Before the first read.
    pub fn new(dispatch: D) -> (r: Self)
        ensures
            r@ == ConnectionView::initial(dispatch),
            r@.wf(),
    {
        let r = HttpConnection {
            rdbuf: vec![0u8; READ_BUFFER_SIZE],
            nread: 0,
            overrun: None,
            keep_alive: true,
            response: Response::new(),
            dispatch,
        };
        assert(r@.rdbuf =~= ConnectionView::initial(dispatch).rdbuf);
        r
    }

    /// The part of the read buffer that the next read fills.
    pub fn buf(&mut self) -> (r: &mut [u8])
        requires
            old(self)@.wf(),
        ensures
            r@ == old(self)@.rdbuf.skip(old(self)@.nread),
            r@.len() > 0,
            final(self)@ == (ConnectionView {
                rdbuf: old(self)@.rdbuf.take(old(self)@.nread) + final(r)@,
                ..old(self)@
            }),
            final(r)@.len() == r@.len() ==> final(self)@.wf(),
    {
        let nread = self.nread;
        let (front, back) = self.rdbuf.as_mut_slice().split_at_mut(nread);
        back
    }

    /// Builds the response to a request that has been read to the end of its headers.
    fn respond(&mut self, keep_alive: bool)
        ensures
            final(self)@ == (ConnectionView { response: answer(keep_alive), ..old(self)@ }),
    {
        proof {
            lemma_lengths();
        }
        self.response.reset();
        self.response.set_status("HTTP/1.1 200 OK\r\n");
        self.response.add_header("Server: xyio/0.1.0\r\n");
        self.response.add_header("Content-Length: 15\r\n");
        if keep_alive {
            self.response.add_header("Connection: Keep-Alive\r\n");
        } else {
            self.response.add_header("Connection: Close\r\n");
        }
        self.response.add_header("X-Powered-By: Cocaine\r\n");
        self.response.write("\r\n".as_bytes());
        let body = greeting_bytes();
        self.response.write(body.as_slice());
    }

    /// Builds the response to a request with a line that does not fit into the read buffer.
    fn refuse(&mut self, refusal: Refusal)
        ensures
            final(self)@ == (ConnectionView { response: refusal_answer(refusal), ..old(self)@ }),
    {
        proof {
            lemma_lengths();
        }
        self.response.reset();
        self.response.set_status(refusal.status());
        self.response.add_header("Server: xyio/0.1.0\r\n");
        self.response.add_header("Content-Length: 0\r\n");
        self.response.add_header("Connection: Close\r\n");
        self.response.write("\r\n".as_bytes());
    }

    /// A head that does not fit into the buffer has been read as far as `scan`. `dispatch` is
    /// whether the dispatcher is told of the request.
    fn on_overrun(&mut self, scan: HeadScan, dispatch: bool) -> (r: Reaction)
        requires
            old(self)@.wf(),
            scan.wf(),
        ensures
            (final(self)@, r) == old(self)@.overran(scan, dispatch),
            final(self)@.wf(),
    {
        match scan {
            HeadScan::Line { .. } => {
                self.nread = 0;
                self.overrun = Some(scan);
                Reaction { dispatch, next: Next::Read }
            },
            HeadScan::TooLong(refusal) => {
                self.nread = 0;
                self.overrun = None;
                self.keep_alive = false;
                self.refuse(refusal);
                Reaction { dispatch, next: Next::Write }
            },
            HeadScan::Ended => Reaction { dispatch, next: Next::Drop },
        }
    }

    /// The first `len` bytes of the read buffer have been found to be `head`.
    pub fn on_head(&mut self, len: usize, head: Head) -> (r: Reaction)
        requires
            old(self)@.wf(),
            len <= READ_BUFFER_SIZE,
        ensures
            (final(self)@, r) == old(self)@.headed(len as int, head_view(head)),
            final(self)@.wf(),
    {
        match head {
            Head::Malformed => Reaction { dispatch: false, next: Next::Drop },
            Head::Partial => if len < READ_BUFFER_SIZE {
                self.nread = len;
                self.overrun = None;
                Reaction { dispatch: true, next: Next::Read }
            } else {
                let whole = vstd::slice::slice_subrange(self.rdbuf.as_slice(), 0, len);
                assert(whole@ =~= self@.rdbuf.take(len as int));
                let scan = HeadScan::new().read(whole);
                self.on_overrun(scan, true)
            },
            Head::Complete(headers) => {
                let keep_alive = should_keep_alive(&headers);
                self.nread = 0;
                self.overrun = None;
                if !keep_alive {
                    self.keep_alive = false;
                }
                self.respond(keep_alive);
                Reaction { dispatch: true, next: Next::Write }
            },
        }
    }

    /// A read into the buffer has ended in `result`.
    pub fn complete_read(&mut self, result: Result<usize, IoError>) -> (r: Reaction)
        requires
            old(self)@.wf(),
            result matches Ok(n) ==> old(self)@.nread + n <= READ_BUFFER_SIZE,
        ensures
            (final(self)@, r) == old(self)@.read(result),
            final(self)@.wf(),
    {
        match result {
            Ok(n) => {
                if n == 0 {
                    return Reaction { dispatch: false, next: Next::Drop };
                }
                let len: usize = self.nread + n;
                let front = vstd::slice::slice_subrange(self.rdbuf.as_slice(), 0, len);
                assert(front@ =~= self@.rdbuf.take(len as int));
                match self.overrun {
                    Some(scan) => {
                        let scan = scan.read(front);
                        self.on_overrun(scan, false)
                    },
                    None => {
                        let head = parse_head(front);
                        self.on_head(len, head)
                    },
                }
            },
            Err(_) => Reaction { dispatch: false, next: Next::Drop },
        }
    }

    /// A write of the response has ended in `result`.
    pub fn complete_write(&mut self, result: Result<usize, IoError>) -> (r: Next)
        requires
            old(self)@.wf(),
            result matches Ok(n) ==> old(self)@.response.nwritten + n <= usize::MAX,
        ensures
            (final(self)@, r) == old(self)@.written(result),
            final(self)@.wf(),
    {
        match result {
            Ok(n) => {
                self.response.nwritten = self.response.nwritten + n;
                if self.response.nwritten != self.response.size {
                    Next::Write
                } else if self.keep_alive {
                    Next::Read
                } else {
                    Next::Drop
                }
            },
            Err(_) => Next::Drop,
        }
    }

    /// Hands the pieces of the response that are still to be written to `f`.
    pub fn with_iov<F: Fn(&[&[u8]]) -> Result<usize, IoError>>(&self, f: F) -> (r: Result<
        usize,
        IoError,
    >)
        requires
            self@.response.segments().len() <= MAX_SEGMENTS,
            forall|iov: &[&[u8]]|
                pieces(iov@) == self@.response.segments() ==> #[trigger] f.requires((iov,)),
        ensures
            exists|iov: &[&[u8]]|
                pieces(iov@) == self@.response.segments() && #[trigger] f.ensures((iov,), r),
    {
        self.response.with(f)
    }
}

/// The fixed status line and the fixed length are what the pipelining server writes for them.
proof fn lemma_fixed_parts()
    ensures
        code_ok().spec_bytes() == "HTTP/".spec_bytes() + decimal(1) + ".".spec_bytes() + decimal(1)
            + " 200 OK\r\n".spec_bytes(),
        "Content-Length: 15\r\n".spec_bytes() == "Content-Length: ".spec_bytes() + decimal(15)
            + "\r\n".spec_bytes(),
{
    broadcast use is_ascii_spec_bytes;

    reveal_strlit("HTTP/1.1 200 OK\r\n");
    reveal_strlit("HTTP/");
    reveal_strlit(".");
    reveal_strlit(" 200 OK\r\n");
    reveal_strlit("Content-Length: 15\r\n");
    reveal_strlit("Content-Length: ");
    reveal_strlit("\r\n");
    reveal_with_fuel(decimal, 2);
    assert(is_ascii("HTTP/1.1 200 OK\r\n"));
    assert(is_ascii("HTTP/"));
    assert(is_ascii("."));
    assert(is_ascii(" 200 OK\r\n"));
    assert(is_ascii("Content-Length: 15\r\n"));
    assert(is_ascii("Content-Length: "));
    assert(is_ascii("\r\n"));
    assert(decimal(1) =~= seq![49u8]);
    assert(decimal(15) =~= seq![49u8, 53u8]);
    assert(code_ok().spec_bytes() =~= "HTTP/".spec_bytes() + decimal(1) + ".".spec_bytes()
        + decimal(1) + " 200 OK\r\n".spec_bytes());
    assert("Content-Length: 15\r\n".spec_bytes() =~= "Content-Length: ".spec_bytes() + decimal(15)
        + "\r\n".spec_bytes());
}

proof fn lemma_answer_bytes(keep_alive: bool)
    ensures
        answer(keep_alive).bytes() == code_ok().spec_bytes() + (
        "Server: xyio/0.1.0\r\n".spec_bytes() + "Content-Length: 15\r\n".spec_bytes()
            + connection_header(keep_alive) + "X-Powered-By: Cocaine\r\n".spec_bytes()) + (
        "\r\n".spec_bytes() + greeting()),
{
    let server = "Server: xyio/0.1.0\r\n".spec_bytes();
    let length = "Content-Length: 15\r\n".spec_bytes();
    let connection = connection_header(keep_alive);
    let powered = "X-Powered-By: Cocaine\r\n".spec_bytes();
    let none = Seq::<Seq<u8>>::empty();
    law_parts_in_order(answer(keep_alive));
    none.lemma_flatten_push(server);
    none.push(server).lemma_flatten_push(length);
    none.push(server).push(length).lemma_flatten_push(connection);
    none.push(server).push(length).push(connection).lemma_flatten_push(powered);
    assert(none.flatten() =~= Seq::empty());
    assert(Seq::empty() + server =~= server);
    assert(Seq::empty() + "\r\n".spec_bytes() =~= "\r\n".spec_bytes());
    assert(answer(keep_alive).body =~= "\r\n".spec_bytes() + greeting());
}

/// A request is answered with the very bytes with which the pipelining server answers a
/// request of HTTP/1.1.
#[verifier::rlimit(30)]
pub proof fn law_answer_is_the_response(keep_alive: bool)
    ensures
        answer(keep_alive).bytes() == response_bytes((1u16, 1u16), keep_alive),
{
    lemma_answer_bytes(keep_alive);
    lemma_fixed_parts();
    let server = "Server: xyio/0.1.0\r\n".spec_bytes();
    let rest = connection_header(keep_alive) + "X-Powered-By: Cocaine\r\n".spec_bytes()
        + "\r\n".spec_bytes() + greeting();
    assert(answer(keep_alive).bytes() =~= code_ok().spec_bytes() + server
        + "Content-Length: 15\r\n".spec_bytes() + rest);
    assert(response_bytes((1u16, 1u16), keep_alive) =~= code_ok().spec_bytes() + server
        + "Content-Length: 15\r\n".spec_bytes() + rest);
}

/// A refused request is answered with the very bytes with which the pipelining server
/// refuses it.
pub proof fn law_refusal_is_the_response(refusal: Refusal)
    ensures
        refusal_answer(refusal).bytes() == refusal_bytes(refusal),
{
    let server = "Server: xyio/0.1.0\r\n".spec_bytes();
    let length = "Content-Length: 0\r\n".spec_bytes();
    let connection = connection_header(false);
    let none = Seq::<Seq<u8>>::empty();
    law_parts_in_order(refusal_answer(refusal));
    none.lemma_flatten_push(server);
    none.push(server).lemma_flatten_push(length);
    none.push(server).push(length).lemma_flatten_push(connection);
    assert(none.flatten() =~= Seq::empty());
    assert(refusal_answer(refusal).body =~= "\r\n".spec_bytes());
    assert(refusal_answer(refusal).headers.flatten() =~= server + length + connection);
    assert(refusal_answer(refusal).bytes() =~= refusal_bytes(refusal));
}

/// A response is counted as written exactly when as many bytes have been written as it has,
/// and its first write is given all of them.
pub proof fn law_answers_are_counted(keep_alive: bool, refusal: Refusal)
    ensures
        answer(keep_alive).size == answer(keep_alive).bytes().len(),
        answer(keep_alive).segments().flatten() == answer(keep_alive).bytes(),
        refusal_answer(refusal).size == refusal_answer(refusal).bytes().len(),
        refusal_answer(refusal).segments().flatten() == refusal_answer(refusal).bytes(),
{
    let a0 = ResponseView::initial().with_status(code_ok().spec_bytes());
    let a1 = a0.with_header("Server: xyio/0.1.0\r\n".spec_bytes());
    let a2 = a1.with_header("Content-Length: 15\r\n".spec_bytes());
    let a3 = a2.with_header(connection_header(keep_alive));
    let a4 = a3.with_header("X-Powered-By: Cocaine\r\n".spec_bytes());
    let a5 = a4.with_data("\r\n".spec_bytes());
    law_status_is_counted(code_ok().spec_bytes());
    law_additions_are_counted(a0, "Server: xyio/0.1.0\r\n".spec_bytes());
    law_additions_are_counted(a1, "Content-Length: 15\r\n".spec_bytes());
    law_additions_are_counted(a2, connection_header(keep_alive));
    law_additions_are_counted(a3, "X-Powered-By: Cocaine\r\n".spec_bytes());
    law_additions_are_counted(a4, "\r\n".spec_bytes());
    law_additions_are_counted(a5, greeting());
    law_first_write_is_whole(answer(keep_alive));
    let b0 = ResponseView::initial().with_status(refusal.status_spec().spec_bytes());
    let b1 = b0.with_header("Server: xyio/0.1.0\r\n".spec_bytes());
    let b2 = b1.with_header("Content-Length: 0\r\n".spec_bytes());
    let b3 = b2.with_header(connection_header(false));
    law_status_is_counted(refusal.status_spec().spec_bytes());
    law_additions_are_counted(b0, "Server: xyio/0.1.0\r\n".spec_bytes());
    law_additions_are_counted(b1, "Content-Length: 0\r\n".spec_bytes());
    law_additions_are_counted(b2, connection_header(false));
    law_additions_are_counted(b3, "\r\n".spec_bytes());
    law_first_write_is_whole(refusal_answer(refusal));
}

/// A head that does not fit into the read buffer is read on. How it is answered depends on its
/// lines alone, however it was cut into reads: one whose request line is too long is answered
/// 414, one with a header field that is too long is answered 400, and once the answer has been
/// written the connection is dropped. One that comes to its end before that is not answered: the
/// connection is dropped.
pub proof fn law_oversized_request_is_refused<D>(
    c: ConnectionView<D>,
    n: usize,
    data: Seq<u8>,
    room: Seq<u8>,
    written: usize,
)
    requires
        c.wf(),
        c.overrun is None,
        c.nread + n == READ_BUFFER_SIZE,
        parsed_head(c.rdbuf, MAX_HEADERS as nat) == Some(None::<Seq<(Seq<u8>, Seq<u8>)>>),
        data.len() > 0,
        data.len() + room.len() == READ_BUFFER_SIZE,
    ensures
        ({
            let (c1, reaction) = c.read(Ok(n));
            let c2 = ConnectionView { rdbuf: data + room, ..c1 };
            let (c3, next) = c2.read(Ok(data.len() as usize));
            if HeadScan::line_start(true).bytes(c.rdbuf) is Ended {
                reaction.next == Next::Drop && c1.response == c.response
            } else {
                &&& reaction.next == Next::Read
                &&& c2.wf()
                &&& match HeadScan::line_start(true).bytes(c.rdbuf + data) {
                    HeadScan::TooLong(refusal) => {
                        &&& next.next == Next::Write
                        &&& c3.response.bytes() == refusal_bytes(refusal)
                        &&& written == c3.response.size ==> c3.written(Ok(written)).1 == Next::Drop
                    },
                    HeadScan::Ended => next.next == Next::Drop && c3.response == c.response,
                    scan => next.next == Next::Read && c3.overrun == Some(scan),
                }
            }
        }),
{
    assert(c.rdbuf.take(READ_BUFFER_SIZE as int) =~= c.rdbuf);
    assert((data + room).take(data.len() as int) =~= data);
    law_head_portions_add_up(HeadScan::line_start(true), c.rdbuf, data);
    lemma_scan_wf(HeadScan::line_start(true), c.rdbuf);
    lemma_no_line_too_long(c.rdbuf);
    law_refusal_is_the_response(Refusal::UriTooLong);
    law_refusal_is_the_response(Refusal::BadRequest);
}

/// Reading on keeps what is known of a line.
proof fn lemma_scan_wf(s: HeadScan, data: Seq<u8>)
    requires
        s.wf(),
    ensures
        s.bytes(data).wf(),
    decreases data.len(),
{
    if data.len() > 0 {
        lemma_scan_wf(s, data.drop_last());
    }
}

/// A request is not refused as long as it fits into the read buffer, even if it fills it.
pub proof fn law_what_fits_is_not_refused<D>(
    c: ConnectionView<D>,
    len: int,
    head: Option<Option<Seq<(Seq<u8>, Seq<u8>)>>>,
)
    requires
        c.wf(),
        0 <= len <= READ_BUFFER_SIZE,
        c.headed(len, head).1.next == Next::Write,
    ensures
        head matches Some(Some(headers)) && c.headed(len, head).0.response == answer(
            keeps_alive(headers),
        ),
{
    lemma_no_line_too_long(c.rdbuf.take(len));
}

/// A request that comes in parts is parsed as one: what a read adds is parsed behind what the
/// reads before it have brought, as long as that was only the beginning of a request.
pub proof fn law_parts_are_parsed_together<D>(
    c: ConnectionView<D>,
    n: usize,
    data: Seq<u8>,
    room: Seq<u8>,
)
    requires
        c.wf(),
        c.overrun is None,
        0 < n,
        c.nread + n < READ_BUFFER_SIZE,
        parsed_head(c.rdbuf.take(c.nread + n), MAX_HEADERS as nat) == Some(
            None::<Seq<(Seq<u8>, Seq<u8>)>>,
        ),
        data.len() + room.len() == READ_BUFFER_SIZE - (c.nread + n),
        0 < data.len(),
    ensures
        ({
            let (c1, reaction) = c.read(Ok(n));
            let c2 = ConnectionView { rdbuf: c1.rdbuf.take(c1.nread) + (data + room), ..c1 };
            &&& reaction.next == Next::Read
            &&& c2.wf()
            &&& c2.read(Ok(data.len() as usize)) == c2.headed(
                c.nread + n + data.len(),
                parsed_head(c.rdbuf.take(c.nread + n) + data, MAX_HEADERS as nat),
            )
        }),
{
    let (c1, reaction) = c.read(Ok(n));
    let c2 = ConnectionView { rdbuf: c1.rdbuf.take(c1.nread) + (data + room), ..c1 };
    assert(c2.rdbuf.take(c2.nread + data.len()) =~= c.rdbuf.take(c.nread + n) + data);
}

/// Once a response has been written the connection goes on with the next request, from the
/// start of its buffer, unless some request has asked to close it.
pub proof fn law_keep_alive_reads_the_next_request<D>(
    c: ConnectionView<D>,
    len: int,
    headers: Seq<(Seq<u8>, Seq<u8>)>,
    written: usize,
)
    requires
        c.wf(),
        written == answer(keeps_alive(headers)).size,
    ensures
        ({
            let (c1, reaction) = c.headed(len, Some(Some(headers)));
            let (c2, next) = c1.written(Ok(written));
            &&& reaction.next == Next::Write
            &&& c2.nread == 0
            &&& next == (if c.keep_alive && keeps_alive(headers) {
                Next::Read
            } else {
                Next::Drop
            })
        }),
{
}

/// The responses never have more pieces than one write takes.
pub proof fn law_response_fits_one_write(v: ResponseView)
    requires
        v.headers.len() + 2 <= MAX_SEGMENTS,
    ensures
        v.segments().len() <= MAX_SEGMENTS,
{
    lemma_cut_len(v.parts(), v.nwritten);
}

proof fn lemma_cut_len(parts: Seq<Seq<u8>>, offset: int)
    ensures
        cut(parts, offset).len() <= parts.len(),
    decreases parts.len(),
{
    if parts.len() > 0 {
        lemma_cut_len(parts.skip(1), offset);
        lemma_cut_len(parts.skip(1), offset - parts[0].len());
    }
}

/// The view tells the fields.
pub proof fn law_view_tells_the_connection<D>(c: HttpConnection<D>)
    ensures
        c@.rdbuf == c.rdbuf@,
        c@.nread == c.nread,
        c@.overrun == c.overrun,
        c@.keep_alive == c.keep_alive,
        c@.response == c.response@,
        c@.dispatch == c.dispatch,
{
}

/// A new connection has read nothing, has room for 4096 bytes, and stays open.
pub proof fn law_new_connection_reads<D>(dispatch: D, i: int)
    ensures
        ({
            let c = ConnectionView::initial(dispatch);
            &&& c.rdbuf.len() == 4096
            &&& 0 <= i < 4096 ==> c.rdbuf[i] == 0
            &&& c.nread == 0
            &&& c.overrun is None
            &&& c.keep_alive
            &&& c.response == ResponseView::initial()
            &&& c.dispatch == dispatch
            &&& c.wf()
        }),
{
}

/// A connection may be used whenever its buffer has its size and room to read into.
pub proof fn law_connection_with_room_is_well_formed<D>(c: ConnectionView<D>)
    requires
        c.rdbuf.len() == 4096,
        0 <= c.nread < 4096,
        c.overrun is None,
    ensures
        c.wf(),
{
}

/// A request whose head is complete is answered: the dispatcher is told of it, the response says
/// whether the connection stays open as its headers ask, and the connection closes after it if
/// they ask for that, or if a request before has. Reading begins anew after it.
pub proof fn law_complete_head_is_answered<D>(
    c: ConnectionView<D>,
    len: int,
    headers: Seq<(Seq<u8>, Seq<u8>)>,
)
    ensures
        ({
            let (after, reaction) = c.headed(len, Some(Some(headers)));
            let close = headers.contains(("Connection".spec_bytes(), "Close".spec_bytes()));
            &&& reaction == (Reaction { dispatch: true, next: Next::Write })
            &&& close ==> after.response == answer(false) && !after.keep_alive
            &&& !close ==> after.response == answer(true) && after.keep_alive == c.keep_alive
            &&& after.nread == 0
            &&& after.overrun is None
            &&& after.rdbuf == c.rdbuf
            &&& after.dispatch == c.dispatch
        }),
{
    law_close_is_heard(Seq::empty(), Seq::empty(), headers);
    let close = ("Connection".spec_bytes(), "Close".spec_bytes());
    if headers.contains(close) {
        let i = choose|i: int| 0 <= i < headers.len() && headers[i] == close;
        let a = headers.take(i);
        let b = headers.skip(i + 1);
        law_close_is_heard(a, b, headers);
        assert(a + seq![close] + b =~= headers);
    }
}

/// A head that is not complete yet is kept, and reading goes on behind it, as long as there is
/// room. What is no head has the connection dropped, with nothing changed and nobody told.
pub proof fn law_partial_head_is_kept<D>(c: ConnectionView<D>, len: int)
    ensures
        0 <= len < 4096 ==> {
            let (after, reaction) = c.headed(len, Some(None));
            &&& reaction == (Reaction { dispatch: true, next: Next::Read })
            &&& after.nread == len
            &&& after.overrun is None
            &&& after.rdbuf == c.rdbuf
            &&& after.keep_alive == c.keep_alive
            &&& after.response == c.response
            &&& after.dispatch == c.dispatch
        },
        len == 4096 ==> c.headed(len, Some(None)) == c.overran(
            (HeadScan::Line { request_line: true, len: 0, cr: false }).bytes(c.rdbuf.take(4096)),
            true,
        ),
        c.headed(len, None) == (c, Reaction { dispatch: false, next: Next::Drop }),
{
}

/// While the lines of a head that does not fit are short enough it is read on, into the whole
/// buffer. A line that is too long has the request refused with the status of its kind, and the
/// connection closed after that. At the end of the head the connection is dropped.
pub proof fn law_head_that_does_not_fit<D>(
    c: ConnectionView<D>,
    request_line: bool,
    len: usize,
    cr: bool,
    refusal: Refusal,
    dispatch: bool,
)
    ensures
        ({
            let scan = HeadScan::Line { request_line, len, cr };
            let (after, reaction) = c.overran(scan, dispatch);
            &&& reaction == (Reaction { dispatch, next: Next::Read })
            &&& after.nread == 0
            &&& after.overrun == Some(scan)
            &&& after.rdbuf == c.rdbuf
            &&& after.keep_alive == c.keep_alive
            &&& after.response == c.response
            &&& after.dispatch == c.dispatch
        }),
        ({
            let (after, reaction) = c.overran(HeadScan::TooLong(refusal), dispatch);
            &&& reaction == (Reaction { dispatch, next: Next::Write })
            &&& after.nread == 0
            &&& after.overrun is None
            &&& after.rdbuf == c.rdbuf
            &&& !after.keep_alive
            &&& after.response == refusal_answer(refusal)
            &&& after.response.bytes() == refusal_bytes(refusal)
            &&& after.dispatch == c.dispatch
        }),
        c.overran(HeadScan::Ended, dispatch) == (c, Reaction { dispatch, next: Next::Drop }),
{
    law_refusal_is_the_response(refusal);
}

/// What has been read is parsed behind what was kept, or measured where the head does not fit. The
/// end of the stream and a failure have the connection dropped, with nothing changed.
pub proof fn law_what_is_read_is_parsed<D>(c: ConnectionView<D>, n: usize, err: IoError)
    ensures
        c.read(Err(err)) == (c, Reaction { dispatch: false, next: Next::Drop }),
        c.read(Ok(0)) == (c, Reaction { dispatch: false, next: Next::Drop }),
        n > 0 && c.overrun is None ==> c.read(Ok(n)) == c.headed(
            c.nread + n,
            parsed_head(c.rdbuf.take(c.nread + n), 64),
        ),
        n > 0 && c.overrun is Some ==> c.read(Ok(n)) == c.overran(
            c.overrun->0.bytes(c.rdbuf.take(n as int)),
            false,
        ),
{
}

/// A response is written on until all of it has been written. Then the connection reads the next
/// request if it stays open, and is dropped otherwise, as it is when a write fails.
pub proof fn law_response_is_written_to_its_end<D>(c: ConnectionView<D>, n: usize, err: IoError)
    ensures
        ({
            let (after, next) = c.written(Ok(n));
            let all = c.response.nwritten + n == c.response.size;
            &&& !all ==> next is Write
            &&& all && c.keep_alive ==> next is Read
            &&& all && !c.keep_alive ==> next is Drop
            &&& after.response == (ResponseView {
                nwritten: c.response.nwritten + n,
                ..c.response
            })
            &&& after.rdbuf == c.rdbuf
            &&& after.nread == c.nread
            &&& after.overrun == c.overrun
            &&& after.keep_alive == c.keep_alive
            &&& after.dispatch == c.dispatch
        }),
        c.written(Err(err)) == (c, Next::Drop),
{
}

/// Nothing of a response has been written when it is built.
pub proof fn law_answers_are_written_from_the_start(keep_alive: bool, refusal: Refusal)
    ensures
        answer(keep_alive).nwritten == 0,
        refusal_answer(refusal).nwritten == 0,
{
}

} // verus!
