//! The pipelining HTTP server: requests of one connection are parsed ahead while earlier
//! responses are still being written, as long as there are free response buffers.
//!
//! [`Reader::on_recv`] gives what has been received to the parser and has [`Handler`] work off
//! what the parser finds.

use vstd::prelude::*;
use vstd::string::*;

use crate::collections::PipelineVec;
use crate::collections::PipelineView;
use crate::http::reactor::Context;
use crate::http::reactor::TcpSocket;
use crate::http::reactor::TcpSocketReader;
use crate::http::reactor::TcpSocketWriter;
use crate::http::reader::pending_views;
use crate::http::reader::Parsed;
use crate::http::reader::Reader;
use crate::http::refusal::Refusal;
use crate::http::refusal::READ_BUFFER_SIZE;
use crate::operation::IoError;
use crate::operation::Operation;
use crate::operation::UserOperation;
use crate::text::decimal;
use crate::text::lemma_append;
use crate::text::push_bytes;
use crate::text::push_decimal;
use crate::text::push_text;

verus! {

/// How many requests of one connection may be in progress.
pub const PIPELINE_NUMBER: usize = 64;

/// The contents of a list of buffers.
pub open spec fn contents(bufs: Seq<Vec<u8>>) -> Seq<Seq<u8>> {
    bufs.map_values(|buf: Vec<u8>| buf@)
}

/// What is known of a request when its headers have been read.
#[derive(Debug)]
pub struct Request {
    pub url: Vec<u8>,
    pub headers: Vec<u8>,
}

/// What a [`Request`] holds.
#[verifier::ext_equal]
pub struct RequestView {
    pub url: Seq<u8>,
    pub headers: Seq<u8>,
}

impl View for Request {
    type V = RequestView;

    open spec fn view(&self) -> RequestView {
        RequestView { url: self.url@, headers: self.headers@ }
    }
}

impl RequestView {
    /// A request of which nothing is known.
    pub open spec fn empty() -> Self {
        RequestView { url: Seq::empty(), headers: Seq::empty() }
    }
}

impl Request {
    /// A request of which nothing is known.
    pub fn new() -> (r: Self)
        ensures
            r@ == RequestView::empty(),
    {
        Request { url: Vec::new(), headers: Vec::new() }
    }

    /// Forgets everything about the request.
    pub fn clear(&mut self)
        ensures
            final(self)@ == RequestView::empty(),
    {
        self.url.clear();
        self.headers.clear();
    }
}

/// The body of every response.
pub open spec fn greeting() -> Seq<u8> {
    seq![0xD0, 0xA2, 0xD1, 0x8B, 0x20, 0xD0, 0xBF, 0xD0, 0xB8, 0xD0, 0xB4, 0xD0, 0xBE, 0xD1, 0x80]
}

/// The body of every response.
pub fn greeting_bytes() -> (r: Vec<u8>)
    ensures
        r@ == greeting(),
{
    let r: Vec<u8> = vec![
        0xD0,
        0xA2,
        0xD1,
        0x8B,
        0x20,
        0xD0,
        0xBF,
        0xD0,
        0xB8,
        0xD0,
        0xB4,
        0xD0,
        0xBE,
        0xD1,
        0x80,
    ];
    assert(r@ =~= greeting());
    r
}

/// The header that tells the client whether the connection stays open.
pub open spec fn connection_header(keepalive: bool) -> Seq<u8> {
    if keepalive {
        "Connection: Keep-Alive\r\n".spec_bytes()
    } else {
        "Connection: Close\r\n".spec_bytes()
    }
}

/// The status line and the headers of a response with a body of `length` bytes, up to and
/// with the blank line.
pub open spec fn response_head(version: (u16, u16), length: nat, keepalive: bool) -> Seq<u8> {
    "HTTP/".spec_bytes() + decimal(version.0 as nat) + ".".spec_bytes() + decimal(
        version.1 as nat,
    ) + " 200 OK\r\n".spec_bytes() + "Server: xyio/0.1.0\r\n".spec_bytes()
        + "Content-Length: ".spec_bytes() + decimal(length) + "\r\n".spec_bytes()
        + connection_header(keepalive) + "X-Powered-By: Cocaine\r\n".spec_bytes()
        + "\r\n".spec_bytes()
}

/// A whole response.
pub open spec fn response_bytes(version: (u16, u16), keepalive: bool) -> Seq<u8> {
    response_head(version, greeting().len(), keepalive) + greeting()
}

/// The answer to a request that is refused.
pub open spec fn refusal_bytes(refusal: Refusal) -> Seq<u8> {
    refusal.status_spec().spec_bytes() + "Server: xyio/0.1.0\r\n".spec_bytes()
        + "Content-Length: 0\r\n".spec_bytes() + "Connection: Close\r\n".spec_bytes()
        + "\r\n".spec_bytes()
}

/// A response that is ready to be written.
#[derive(Debug)]
pub struct Outgoing {
    /// Request id.
    pub id: usize,
    /// What is to be written.
    pub buf: Vec<u8>,
}

/// A response to a request whose headers have been read.
#[derive(Debug)]
pub struct Response {
    /// Request id.
    pub id: usize,
    /// Buffer for status line and headers (and body).
    pub buf: Vec<u8>,
    pub version: (u16, u16),
    pub keepalive: bool,
}

impl Response {
    /// A response that is built in `buf`.
    pub fn new(id: usize, buf: Vec<u8>, version: (u16, u16), keepalive: bool) -> (r: Self)
        ensures
            r == (Response { id, buf, version, keepalive }),
    {
        Response { id, buf, version, keepalive }
    }

    /// Builds the response behind what its buffer holds already.
    pub fn finish(self) -> (r: Outgoing)
        ensures
            r.id == self.id,
            r.buf@ == self.buf@ + response_bytes(self.version, self.keepalive),
    {
        let body = greeting_bytes();
        let version = self.version;
        let keepalive = self.keepalive;
        let id = self.id;
        let mut buf = self.buf;
        let ghost start = buf@;
        push_text(&mut buf, "HTTP/");
        push_decimal(&mut buf, version.0 as usize);
        push_text(&mut buf, ".");
        push_decimal(&mut buf, version.1 as usize);
        push_text(&mut buf, " 200 OK\r\n");
        push_text(&mut buf, "Server: xyio/0.1.0\r\n");
        push_text(&mut buf, "Content-Length: ");
        push_decimal(&mut buf, body.len());
        push_text(&mut buf, "\r\n");
        if keepalive {
            push_text(&mut buf, "Connection: Keep-Alive\r\n");
        } else {
            push_text(&mut buf, "Connection: Close\r\n");
        }
        push_text(&mut buf, "X-Powered-By: Cocaine\r\n");
        push_text(&mut buf, "\r\n");
        push_bytes(&mut buf, body.as_slice());
        proof {
            let major = decimal(version.0 as nat);
            let minor = decimal(version.1 as nat);
            let length = decimal(body@.len());
            let d0 = "HTTP/".spec_bytes();
            let d1 = d0 + major;
            let d2 = d1 + ".".spec_bytes();
            let d3 = d2 + minor;
            let d4 = d3 + " 200 OK\r\n".spec_bytes();
            let d5 = d4 + "Server: xyio/0.1.0\r\n".spec_bytes();
            let d6 = d5 + "Content-Length: ".spec_bytes();
            let d7 = d6 + length;
            let d8 = d7 + "\r\n".spec_bytes();
            let d9 = d8 + connection_header(keepalive);
            let d10 = d9 + "X-Powered-By: Cocaine\r\n".spec_bytes();
            let d11 = d10 + "\r\n".spec_bytes();
            lemma_append(start, d0, major);
            lemma_append(start, d1, ".".spec_bytes());
            lemma_append(start, d2, minor);
            lemma_append(start, d3, " 200 OK\r\n".spec_bytes());
            lemma_append(start, d4, "Server: xyio/0.1.0\r\n".spec_bytes());
            lemma_append(start, d5, "Content-Length: ".spec_bytes());
            lemma_append(start, d6, length);
            lemma_append(start, d7, "\r\n".spec_bytes());
            lemma_append(start, d8, connection_header(keepalive));
            lemma_append(start, d9, "X-Powered-By: Cocaine\r\n".spec_bytes());
            lemma_append(start, d10, "\r\n".spec_bytes());
            lemma_append(start, d11, body@);
        }
        Outgoing { id, buf }
    }
}

/// What answers the requests of a connection.
pub trait Dispatch {
    /// Answers a request.
    fn on_request(&mut self, request: &Request, response: Response) -> Outgoing;
}

/// A dispatcher that answers every request in the same way.
#[derive(Clone, Copy, Debug)]
pub struct PingDispatch;

impl Dispatch for PingDispatch {
    fn on_request(&mut self, request: &Request, response: Response) -> (r: Outgoing)
        ensures
            r.id == response.id,
            r.buf@ == response.buf@ + response_bytes(response.version, response.keepalive),
    {
        response.finish()
    }
}

/// What the requests of one connection share.
///
/// `R` is the reader task of the connection; it is kept here while it is paused.
#[derive(Debug)]
pub struct ConnectionState<R> {
    /// Response buffers.
    ///
    /// This is a fixed-sized container of preallocated (but growable) buffers for responses.
    /// The total count of these buffers equals the number of maximum allowed concurrent
    /// requests. Each time a new request is ready to be processed we try to pop one buffer,
    /// which is returned after response write completion.
    /// If there are no more buffers, a reader task is paused until at least one response is
    /// written.
    pub bufs: Vec<Vec<u8>>,
    pub rd: Option<R>,
}

/// What a [`ConnectionState`] holds.
#[verifier::ext_equal]
pub struct StateView<R> {
    pub bufs: Seq<Seq<u8>>,
    pub rd: Option<R>,
}

impl<R> View for ConnectionState<R> {
    type V = StateView<R>;

    open spec fn view(&self) -> StateView<R> {
        StateView { bufs: contents(self.bufs@), rd: self.rd }
    }
}

impl<R> StateView<R> {
    /// All buffers are free and empty, and no reader is paused.
    pub open spec fn initial() -> Self {
        StateView {
            bufs: Seq::new(PIPELINE_NUMBER as nat, |i: int| Seq::<u8>::empty()),
            rd: None,
        }
    }

    /// A reader is paused.
    pub open spec fn pause(self, reader: R) -> Self {
        StateView { rd: Some(reader), ..self }
    }

    /// The paused reader, if there is one, has been handed out.
    pub open spec fn read_more(self) -> Self {
        StateView { rd: None, ..self }
    }

    /// A response has been written: its buffer is free, and the paused reader, if there is
    /// one, has been handed out.
    pub open spec fn written(self) -> Self {
        StateView { bufs: self.bufs.push(Seq::empty()), rd: None }
    }
}

impl<R> ConnectionState<R> {
    /// All buffers are free and empty, and no reader is paused.
    pub fn new() -> (r: Self)
        ensures
            r@ == StateView::<R>::initial(),
    {
        let mut bufs: Vec<Vec<u8>> = Vec::with_capacity(PIPELINE_NUMBER);
        let mut i: usize = 0;
        while i < PIPELINE_NUMBER
            invariant
                i <= PIPELINE_NUMBER,
                bufs@.len() == i,
                forall|j: int| 0 <= j < i ==> (#[trigger] bufs@[j])@ == Seq::<u8>::empty(),
            decreases PIPELINE_NUMBER - i,
        {
            bufs.push(Vec::with_capacity(READ_BUFFER_SIZE));
            i = i + 1;
        }
        assert(contents(bufs@) =~= Seq::new(
            PIPELINE_NUMBER as nat,
            |i: int| Seq::<u8>::empty(),
        ));
        ConnectionState { bufs, rd: None }
    }

    /// Keeps a reader that is paused.
    pub fn pause(&mut self, reader: R)
        ensures
            final(self)@ == old(self)@.pause(reader),
    {
        self.rd = Some(reader);
    }

    /// Hands out the paused reader, if there is one: it has to be started again.
    pub fn read_more(&mut self) -> (r: Option<R>)
        ensures
            r == old(self)@.rd,
            final(self)@ == old(self)@.read_more(),
    {
        self.rd.take()
    }

    /// Takes the buffer of a response back that has been written, and hands out the paused
    /// reader, if there is one: there is a free buffer again.
    pub fn on_written(&mut self, buf: Vec<u8>) -> (r: Option<R>)
        ensures
            r == old(self)@.rd,
            final(self)@ == old(self)@.written(),
    {
        let mut buf = buf;
        buf.clear();
        self.bufs.push(buf);
        assert(contents(self.bufs@) =~= contents(old(self).bufs@).push(Seq::empty()));
        self.read_more()
    }
}

/// Collects what the parser finds in the requests of one connection.
#[derive(Debug)]
pub struct Handler {
    pub request: Request,
    /// The buffer for the response to the current request.
    pub buf: Option<Vec<u8>>,
    /// Total requests read in this connection.
    pub count: usize,
    /// Whether a request line or header fields are being read.
    pub head: bool,
    /// Whether the request line is being read.
    pub request_line: bool,
    /// Why the current request is refused, if it is.
    pub refusal: Option<Refusal>,
}

/// What a [`Handler`] holds.
#[verifier::ext_equal]
pub struct HandlerView {
    pub request: RequestView,
    pub buf: Option<Seq<u8>>,
    pub count: int,
    pub head: bool,
    pub request_line: bool,
    pub refusal: Option<Refusal>,
}

impl View for Handler {
    type V = HandlerView;

    open spec fn view(&self) -> HandlerView {
        HandlerView {
            request: self.request@,
            buf: match self.buf {
                Some(buf) => Some(buf@),
                None => None,
            },
            count: self.count as int,
            head: self.head,
            request_line: self.request_line,
            refusal: self.refusal,
        }
    }
}

impl HandlerView {
    /// Before the first request.
    pub open spec fn initial() -> Self {
        HandlerView {
            request: RequestView::empty(),
            buf: None,
            count: 0,
            head: false,
            request_line: false,
            refusal: None,
        }
    }

    /// A request begins: it gets the last free buffer, if there is one.
    pub open spec fn message_begin(self, bufs: Seq<Seq<u8>>) -> Self {
        HandlerView {
            buf: if bufs.len() > 0 {
                Some(bufs.last())
            } else {
                None
            },
            head: true,
            request_line: true,
            ..self
        }
    }

    /// A further part of the target of the request line has been read.
    pub open spec fn url(self, part: Seq<u8>) -> Self {
        HandlerView {
            request: RequestView { url: self.request.url + part, ..self.request },
            ..self
        }
    }

    /// A header field is being read; it may be one behind a body.
    pub open spec fn header_field(self) -> Self {
        HandlerView { head: true, ..self }
    }

    /// The headers of a request have been read and it has been handed on with its buffer.
    pub open spec fn handed_on(self) -> Self {
        HandlerView { request: RequestView::empty(), buf: None, head: false, ..self }
    }

    /// A request has been read to its end.
    pub open spec fn message_complete(self) -> Self {
        HandlerView { count: self.count + 1, head: false, ..self }
    }

    /// A line of the request line and headers has come to its end.
    pub open spec fn line_end(self) -> Self {
        HandlerView { request_line: false, ..self }
    }

    /// The line that is being read is too long: the request is refused.
    pub open spec fn refused(self) -> Self {
        let refusal = if self.request_line {
            Refusal::UriTooLong
        } else {
            Refusal::BadRequest
        };
        HandlerView { refusal: Some(refusal), ..self }
    }
}

impl Handler {
    /// Before the first request.
    pub fn new() -> (r: Self)
        ensures
            r@ == HandlerView::initial(),
    {
        Handler {
            request: Request::new(),
            buf: None,
            count: 0,
            head: false,
            request_line: false,
            refusal: None,
        }
    }

    /// A request begins.
    pub fn on_message_begin<R>(&mut self, state: &mut ConnectionState<R>)
        ensures
            final(self)@ == old(self)@.message_begin(contents(old(state).bufs@)),
            contents(final(state).bufs@) == (if contents(old(state).bufs@).len() > 0 {
                contents(old(state).bufs@).drop_last()
            } else {
                Seq::empty()
            }),
            final(state).rd == old(state).rd,
    {
        self.buf = state.bufs.pop();
        self.head = true;
        self.request_line = true;
        assert(contents(state.bufs@) =~= (if contents(old(state).bufs@).len() > 0 {
            contents(old(state).bufs@).drop_last()
        } else {
            Seq::empty()
        }));
    }

    /// A part of the target of the request line has been read.
    pub fn on_url(&mut self, url: &[u8])
        ensures
            final(self)@ == old(self)@.url(url@),
    {
        push_bytes(&mut self.request.url, url);
    }

    /// A part of a header field has been read.
    pub fn on_header_field(&mut self)
        ensures
            final(self)@ == old(self)@.header_field(),
    {
        self.head = true;
    }

    /// The headers of a request have been read: hands out the request and the response to it,
    /// for the dispatcher.
    pub fn on_headers_complete(&mut self, version: (u16, u16), keepalive: bool) -> (r: (
        Request,
        Response,
    ))
        requires
            old(self).buf is Some,
        ensures
            final(self)@ == old(self)@.handed_on(),
            r.0@ == old(self)@.request,
            r.1.id == old(self).count % PIPELINE_NUMBER,
            Some(r.1.buf@) == old(self)@.buf,
            r.1.version == version,
            r.1.keepalive == keepalive,
    {
        let buf = self.buf.take().unwrap();
        let response = Response::new(self.count % PIPELINE_NUMBER, buf, version, keepalive);
        let mut request = Request::new();
        std::mem::swap(&mut request, &mut self.request);
        self.head = false;
        (request, response)
    }

    /// A request has been read to its end. Tells whether the parser has to be paused:
    /// continue to parse only if there are free response buffers, i.e. there are fewer than
    /// `PIPELINE_NUMBER` pipelined sessions active.
    pub fn on_message_complete<R>(&mut self, state: &ConnectionState<R>) -> (pause: bool)
        requires
            old(self).count < usize::MAX,
        ensures
            final(self)@ == old(self)@.message_complete(),
            pause == (state.bufs@.len() == 0),
    {
        self.count = self.count + 1;
        self.head = false;
        state.bufs.len() == 0
    }

    /// A line of the request line and headers has come to its end.
    pub fn on_line_end(&mut self)
        ensures
            final(self)@ == old(self)@.line_end(),
    {
        self.request_line = false;
    }

    /// The line that is being read is too long: the request is refused.
    pub fn refuse(&mut self)
        ensures
            final(self)@ == old(self)@.refused(),
    {
        self.refusal = Some(
            if self.request_line {
                Refusal::UriTooLong
            } else {
                Refusal::BadRequest
            },
        );
    }

    /// The answer to a request that is refused, in the buffer of its response if it has one.
    pub fn on_refused(&mut self) -> (r: Outgoing)
        requires
            old(self).refusal is Some,
        ensures
            r.id == old(self).count % PIPELINE_NUMBER,
            r.buf@ == (match old(self)@.buf {
                Some(buf) => buf,
                None => Seq::empty(),
            }) + refusal_bytes(old(self).refusal->0),
            final(self)@ == (HandlerView { buf: None, ..old(self)@ }),
    {
        let refusal = self.refusal.unwrap();
        let mut buf = match self.buf.take() {
            Some(buf) => buf,
            None => Vec::new(),
        };
        let ghost start = buf@;
        push_text(&mut buf, refusal.status());
        push_text(&mut buf, "Server: xyio/0.1.0\r\n");
        push_text(&mut buf, "Content-Length: 0\r\n");
        push_text(&mut buf, "Connection: Close\r\n");
        push_text(&mut buf, "\r\n");
        assert(buf@ =~= start + refusal_bytes(refusal));
        Outgoing { id: self.count % PIPELINE_NUMBER, buf }
    }
}

/// The state of a writer.
#[derive(Debug)]
pub enum WriterState<W> {
    /// Stream is idle.
    Idle(W),
    /// The stream is gone: nothing is written any more.
    Flushing,
}

/// The writer of a connection. `W` is its writable stream, and `C` what runs when a response
/// that had to wait has been written.
#[derive(Debug)]
pub struct Writer<W, C> {
    pub state: WriterState<W>,
    pub bufs: PipelineVec,
    pub callbacks: Vec<Option<C>>,
}

impl<W, C> Writer<W, C> {
    /// A writer with an idle stream and nothing to write.
    pub fn new(wr: W) -> (r: Self)
        ensures
            r.state == WriterState::Idle(wr),
            r.bufs@ == PipelineView::empty(PIPELINE_NUMBER as nat),
            r.callbacks@ == Seq::new(PIPELINE_NUMBER as nat, |i: int| None::<C>),
    {
        let mut callbacks: Vec<Option<C>> = Vec::with_capacity(PIPELINE_NUMBER);
        let mut i: usize = 0;
        while i < PIPELINE_NUMBER
            invariant
                i <= PIPELINE_NUMBER,
                callbacks@ == Seq::new(i as nat, |i: int| None::<C>),
            decreases PIPELINE_NUMBER - i,
        {
            callbacks.push(None);
            i = i + 1;
            assert(callbacks@ =~= Seq::new(i as nat, |i: int| None::<C>));
        }
        Writer { state: WriterState::Idle(wr), bufs: PipelineVec::new(PIPELINE_NUMBER), callbacks }
    }

    /// The stream to write the next response to, if it is still there.
    pub fn stream(&self) -> (r: Option<&W>)
        ensures
            r == (match self.state {
                WriterState::Idle(wr) => Some(&wr),
                WriterState::Flushing => None,
            }),
    {
        match &self.state {
            WriterState::Idle(wr) => Some(wr),
            WriterState::Flushing => None,
        }
    }

    /// Settles a response: `sent` is what came of sending it, where there was a stream to
    /// send it to. One that has been written to its end is posted to `ctx`: `f` makes the
    /// callback that takes its buffer back. One that has failed is lost, and so is the stream.
    /// Tells whether the response has been written.
    pub fn write<T, F: FnOnce(Vec<u8>) -> T>(
        &mut self,
        buf: Vec<u8>,
        sent: Option<Result<usize, IoError>>,
        f: F,
        ctx: &mut Context<T>,
    ) -> (r: bool)
        requires
            sent is Some <==> old(self).state is Idle,
            sent matches Some(Ok(n)) ==> n == buf@.len(),
            f.requires((buf,)),
        ensures
            final(self).bufs == old(self).bufs,
            final(self).callbacks == old(self).callbacks,
            match sent {
                Some(Ok(_)) => {
                    &&& r
                    &&& final(self).state == old(self).state
                    &&& exists|op: T| #[trigger]
                        f.ensures((buf,), op) && final(ctx)@ == old(ctx)@.enqueue(
                            Operation::User(UserOperation::Call(op)),
                        )
                },
                _ => !r && final(self).state is Flushing && final(ctx)@ == old(ctx)@,
            },
    {
        match sent {
            Some(Ok(_)) => {
                // Operation has been completed immediately.
                let op = f(buf);
                ctx.post(op);
                true
            },
            _ => {
                self.state = WriterState::Flushing;
                false
            },
        }
    }
}

/// A connection: what its reader, its parser and its responses work on.
#[derive(Debug)]
pub struct Connection<C> {
    /// The reading half of its socket.
    pub rd: TcpSocketReader,
    pub state: ConnectionState<Reader>,
    pub handler: Handler,
    pub writer: Writer<TcpSocketWriter, C>,
}

/// Makes a connection out of a socket, with the reader that has to be started.
pub fn make_connection<C>(sock: TcpSocket) -> (r: (Connection<C>, Option<Reader>))
    ensures
        r.0.rd == (TcpSocketReader { fd: sock.fd }),
        r.0.state@ == StateView::<Reader>::initial(),
        r.0.handler@ == HandlerView::initial(),
        r.0.writer.state == WriterState::Idle(TcpSocketWriter { fd: sock.fd }),
        r.0.writer.bufs@ == PipelineView::empty(PIPELINE_NUMBER as nat),
        r.0.writer.callbacks@ == Seq::new(PIPELINE_NUMBER as nat, |i: int| None::<C>),
        r.1 matches Some(reader) && reader.is_new(),
{
    let (rd, wr) = sock.into_pair();
    let mut state = ConnectionState::new();
    let handler = Handler::new();
    state.rd = Some(Reader::new());
    let reader = state.read_more();
    (Connection { rd, state, handler, writer: Writer::new(wr) }, reader)
}

/// What a connection does after a receive.
#[derive(Debug)]
pub enum Next {
    /// It receives more, with this reader.
    Receive(Reader),
    /// Nothing until a response has been written: its reader is kept in its state.
    Pause,
    /// It answers the refused request with this, and is dropped.
    Refuse(Outgoing),
    /// It is dropped.
    Close,
}

impl<C> Connection<C> {
    /// A receive into the buffer of `reader` has ended in `nread`: what has been received is
    /// parsed. Hands out the requests to answer, in order, each with its response, and what
    /// the connection does next.
    pub fn on_recv(&mut self, reader: Reader, nread: Result<usize, IoError>) -> (r: (
        Vec<(Request, Response)>,
        Next,
    ))
        requires
            reader.wf(),
            nread matches Ok(n) ==> reader.position + n <= READ_BUFFER_SIZE,
            old(self).handler.count + READ_BUFFER_SIZE * (old(self).state.bufs@.len() + 1)
                <= usize::MAX,
        ensures
            final(self).rd == old(self).rd,
            final(self).writer == old(self).writer,
            ({
                let read = reader.received(
                    nread,
                    old(self).handler@,
                    contents(old(self).state.bufs@),
                );
                let h = read.lines.progress.handler;
                &&& contents(final(self).state.bufs@) == read.lines.progress.bufs
                &&& pending_views(r.0@) == read.lines.progress.requests
                &&& match r.1 {
                    Next::Receive(next) => {
                        &&& read.next(reader.data(nread).len()) == Parsed::Receive
                        &&& next.wf()
                        &&& next.holds(read, reader.data(nread))
                        &&& next.parser.paused() == read.lines.progress.paused
                        &&& final(self).state.rd == old(self).state.rd
                        &&& final(self).handler@ == h
                    },
                    Next::Pause => {
                        &&& read.next(reader.data(nread).len()) == Parsed::Pause
                        &&& final(self).state.rd matches Some(next) && next.wf() && next.holds(
                            read,
                            reader.data(nread),
                        ) && next.parser.paused() == read.lines.progress.paused
                        &&& final(self).handler@ == h
                    },
                    Next::Refuse(out) => {
                        &&& read.next(reader.data(nread).len()) == Parsed::Refuse
                        &&& h.refusal is Some
                        &&& out.id == h.count % PIPELINE_NUMBER as int
                        &&& out.buf@ == (match h.buf {
                            Some(buf) => buf,
                            None => Seq::empty(),
                        }) + refusal_bytes(h.refusal->0)
                        &&& final(self).state.rd == old(self).state.rd
                        &&& final(self).handler@ == (HandlerView { buf: None, ..h })
                    },
                    Next::Close => {
                        &&& read.next(reader.data(nread).len()) == Parsed::Close
                        &&& final(self).state.rd == old(self).state.rd
                        &&& final(self).handler@ == h
                    },
                }
            }),
    {
        let (reader, outcome) = reader.on_recv(nread, &mut self.handler, &mut self.state);
        let next = match outcome.next {
            Parsed::Receive => Next::Receive(reader),
            Parsed::Pause => {
                self.state.pause(reader);
                Next::Pause
            },
            Parsed::Refuse => Next::Refuse(self.handler.on_refused()),
            Parsed::Close => Next::Close,
        };
        (outcome.requests, next)
    }
}

/// A reader that has been paused is handed out again when a response has been written, once,
/// and there is a free buffer then.
pub proof fn law_paused_reader_is_started_again<R>(v: StateView<R>, reader: R)
    ensures
        v.pause(reader).rd == Some(reader),
        v.pause(reader).written().rd is None,
        v.pause(reader).written().bufs == v.bufs.push(Seq::empty()),
{
}

/// The requests of one connection, as far as their response buffers are concerned: the free
/// buffers, and how many responses are being written.
#[verifier::ext_equal]
pub struct PipelineState {
    pub handler: HandlerView,
    pub bufs: Seq<Seq<u8>>,
    pub writing: nat,
}

impl PipelineState {
    /// Every buffer is free, or belongs to the current request, or to a response that is being
    /// written; those that are not in use are empty.
    pub open spec fn wf(self) -> bool {
        &&& self.bufs.len() + self.writing + (if self.handler.buf is Some {
            1nat
        } else {
            0nat
        }) == PIPELINE_NUMBER
        &&& forall|i: int| 0 <= i < self.bufs.len() ==> #[trigger] self.bufs[i].len() == 0
        &&& self.handler.buf matches Some(buf) ==> buf.len() == 0
    }

    /// Before the first request.
    pub open spec fn initial() -> Self {
        PipelineState {
            handler: HandlerView::initial(),
            bufs: Seq::new(PIPELINE_NUMBER as nat, |i: int| Seq::<u8>::empty()),
            writing: 0,
        }
    }

    /// A request begins.
    pub open spec fn begun(self) -> Self {
        PipelineState {
            handler: self.handler.message_begin(self.bufs),
            bufs: if self.bufs.len() > 0 {
                self.bufs.drop_last()
            } else {
                Seq::empty()
            },
            ..self
        }
    }

    /// A request has been answered, and its response is being written.
    pub open spec fn answered(self) -> Self {
        PipelineState {
            handler: self.handler.handed_on(),
            writing: self.writing + 1,
            ..self
        }
    }

    /// A response has been written.
    pub open spec fn written(self) -> Self {
        PipelineState {
            bufs: self.bufs.push(Seq::empty()),
            writing: (self.writing - 1) as nat,
            ..self
        }
    }
}

/// No response buffer is ever lost or used twice: before the first request all of them are
/// free, and beginning a request, answering it and writing its response keep their number.
/// A request that begins while a buffer is free gets an empty one.
pub proof fn law_buffers_are_conserved(p: PipelineState)
    ensures
        PipelineState::initial().wf(),
        p.wf() && p.handler.buf is None ==> p.begun().wf(),
        p.wf() && p.handler.buf is None && p.bufs.len() > 0 ==> p.begun().handler.buf == Some(
            Seq::<u8>::empty(),
        ),
        p.wf() && p.handler.buf is Some ==> p.answered().wf(),
        p.wf() && p.writing > 0 ==> p.written().wf(),
{
    if p.wf() && p.bufs.len() > 0 {
        assert(p.bufs[p.bufs.len() - 1].len() == 0);
        assert(p.bufs.last() =~= Seq::<u8>::empty());
    }
}

/// At most as many responses of one connection are being written as there are buffers. None
/// is free exactly when there are that many, and one is as soon as one of them has been
/// written.
pub proof fn law_none_is_free_while_all_are_written(p: PipelineState)
    requires
        p.wf(),
        p.handler.buf is None,
    ensures
        p.writing <= PIPELINE_NUMBER,
        p.bufs.len() == 0 <==> p.writing == PIPELINE_NUMBER,
        p.writing > 0 ==> p.written().bufs.len() > 0,
{
}

/// The requests that are in progress at the same time have different ids.
pub proof fn law_ids_of_pipelined_requests_differ(first: nat, i: nat, j: nat)
    requires
        first <= i < j < first + PIPELINE_NUMBER,
    ensures
        i % PIPELINE_NUMBER as nat != j % PIPELINE_NUMBER as nat,
{
}

/// A target may come in parts.
pub proof fn law_target_parts_add_up(h: HandlerView, a: Seq<u8>, b: Seq<u8>)
    ensures
        h.url(a).url(b) == h.url(a + b),
{
    assert(h.request.url + a + b =~= h.request.url + (a + b));
}

/// Whether `text` occurs in `bytes`.
pub open spec fn occurs(bytes: Seq<u8>, text: Seq<u8>) -> bool {
    exists|i: int|
        0 <= i && i + text.len() <= bytes.len() && #[trigger] bytes.subrange(i, i + text.len())
            == text
}

/// A response up to the header that tells whether the connection stays open.
pub open spec fn before_connection(version: (u16, u16)) -> Seq<u8> {
    "HTTP/".spec_bytes() + decimal(version.0 as nat) + ".".spec_bytes() + decimal(
        version.1 as nat,
    ) + " 200 OK\r\n".spec_bytes() + "Server: xyio/0.1.0\r\n".spec_bytes()
        + "Content-Length: ".spec_bytes() + decimal(greeting().len()) + "\r\n".spec_bytes()
}

/// A response behind the header that tells whether the connection stays open.
pub open spec fn after_connection() -> Seq<u8> {
    "X-Powered-By: Cocaine\r\n".spec_bytes() + "\r\n".spec_bytes() + greeting()
}

/// No byte is a capital C.
spec fn without_c(bytes: Seq<u8>) -> bool {
    forall|i: int| 0 <= i < bytes.len() ==> #[trigger] bytes[i] != 67
}

proof fn lemma_decimal_without_c(n: nat)
    ensures
        without_c(decimal(n)),
    decreases n,
{
    if n >= 10 {
        lemma_decimal_without_c(n / 10);
    }
}

proof fn lemma_start_without_c(version: (u16, u16))
    ensures
        without_c(
            "HTTP/".spec_bytes() + decimal(version.0 as nat) + ".".spec_bytes() + decimal(
                version.1 as nat,
            ) + " 200 OK\r\n".spec_bytes() + "Server: xyio/0.1.0\r\n".spec_bytes(),
        ),
{
    broadcast use is_ascii_spec_bytes;

    reveal_strlit("HTTP/");
    reveal_strlit(".");
    reveal_strlit(" 200 OK\r\n");
    reveal_strlit("Server: xyio/0.1.0\r\n");
    assert(is_ascii("HTTP/"));
    assert(is_ascii("."));
    assert(is_ascii(" 200 OK\r\n"));
    assert(is_ascii("Server: xyio/0.1.0\r\n"));
    assert(without_c("HTTP/".spec_bytes()));
    assert(without_c(".".spec_bytes()));
    assert(without_c(" 200 OK\r\n".spec_bytes()));
    assert(without_c("Server: xyio/0.1.0\r\n".spec_bytes()));
    lemma_decimal_without_c(version.0 as nat);
    lemma_decimal_without_c(version.1 as nat);
}

/// The part of a response that has capital Cs.
#[verifier::opaque]
spec fn tail(keepalive: bool) -> Seq<u8> {
    "Content-Length: ".spec_bytes() + decimal(15) + "\r\n".spec_bytes() + connection_header(
        keepalive,
    ) + after_connection()
}

/// Where the capital Cs of the header of the length and of what comes behind the connection are.
proof fn lemma_capitals_around()
    ensures
        "Content-Length: ".spec_bytes().len() == 16,
        "Content-Length: ".spec_bytes()[3] == 116,
        forall|i: int|
            0 < i < 16 ==> #[trigger] "Content-Length: ".spec_bytes()[i] != 67,
        "X-Powered-By: Cocaine\r\n".spec_bytes().len() == 23,
        "X-Powered-By: Cocaine\r\n".spec_bytes()[16] == 99,
        forall|i: int|
            0 <= i < 23 && i != 14 ==> #[trigger] "X-Powered-By: Cocaine\r\n".spec_bytes()[i] != 67,
        "\r\n".spec_bytes().len() == 2,
        without_c("\r\n".spec_bytes()),
        without_c(greeting()),
        decimal(15).len() == 2,
{
    broadcast use is_ascii_spec_bytes;

    reveal_strlit("Content-Length: ");
    reveal_strlit("X-Powered-By: Cocaine\r\n");
    reveal_strlit("\r\n");
    assert(is_ascii("Content-Length: "));
    assert(is_ascii("X-Powered-By: Cocaine\r\n"));
    assert(is_ascii("\r\n"));
    reveal_with_fuel(decimal, 2);
}

/// Where the capital Cs are: at the length, at the connection, at its close, and at the end.
proof fn lemma_capitals(keepalive: bool, j: int)
    requires
        0 <= j < tail(keepalive).len(),
        tail(keepalive)[j] == 67,
    ensures
        ({
            let t = tail(keepalive);
            ||| j == 0 && t[j + 3] == 116
            ||| j == 20 && t[j + 12] == (if keepalive {
                75u8
            } else {
                67u8
            })
            ||| t[j + 1] == 108
            ||| t[j + 2] == 99
        }),
{
    reveal(tail);
    lemma_capitals_around();
    lemma_header_text(keepalive);
    lemma_decimal_without_c(15);
    let length = "Content-Length: ".spec_bytes();
    let end = "\r\n".spec_bytes();
    let header = connection_header(keepalive);
    let powered = "X-Powered-By: Cocaine\r\n".spec_bytes();
    let t = tail(keepalive);
    let head = length + decimal(15) + end;
    let n = header.len() as int;
    assert(head.len() == 20);
    assert(t == head + header + after_connection());
    if j < 20 {
        assert(t[j] == head[j]);
        assert(t[3] == head[3]);
        assert(head[3] == length[3]);
        if j < 16 {
            assert(head[j] == length[j]);
        } else if j < 18 {
            assert(head[j] == decimal(15)[j - 16]);
        } else {
            assert(head[j] == end[j - 18]);
        }
    } else if j < 20 + n {
        assert(t[j] == header[j - 20]);
        assert(t[32] == header[12]);
        assert(t[33] == header[13]);
    } else {
        let after = after_connection();
        let k = j - 20 - n;
        assert(t[j] == after[k]);
        if k < 23 {
            assert(after[k] == powered[k]);
            assert(t[j + 2] == after[k + 2]);
            assert(after[16] == powered[16]);
        } else if k < 25 {
            assert(after[k] == end[k - 23]);
        } else {
            assert(after[k] == greeting()[k - 25]);
        }
    }
}

/// Behind a part without capital Cs, the header that tells the opposite does not occur.
proof fn lemma_opposite_is_absent(start: Seq<u8>, keepalive: bool)
    requires
        without_c(start),
    ensures
        !occurs(start + tail(keepalive), connection_header(!keepalive)),
{
    let rest = tail(keepalive);
    let bytes = start + rest;
    let other = connection_header(!keepalive);
    if occurs(bytes, other) {
        let i = choose|i: int|
            0 <= i && i + other.len() <= bytes.len() && #[trigger] bytes.subrange(
                i,
                i + other.len(),
            ) == other;
        lemma_header_text(!keepalive);
        let part = bytes.subrange(i, i + other.len());
        assert(bytes[i] == part[0]);
        assert(bytes[i + 1] == part[1]);
        assert(bytes[i + 2] == part[2]);
        assert(bytes[i + 3] == part[3]);
        assert(bytes[i + 12] == part[12]);
        if i < start.len() {
            assert(bytes[i] == start[i]);
        }
        let j = i - start.len();
        assert(rest[j] == bytes[i]);
        assert(rest[j + 1] == bytes[i + 1]);
        assert(rest[j + 2] == bytes[i + 2]);
        assert(rest[j + 3] == bytes[i + 3]);
        assert(rest[j + 12] == bytes[i + 12]);
        lemma_capitals(keepalive, j);
    }
}

/// The parts behind the first can be put together before they are appended.
proof fn lemma_regroup(a: Seq<u8>, b: Seq<u8>, c: Seq<u8>, d: Seq<u8>)
    ensures
        a + b + c + d == a + (b + c + d),
{
    assert(a + b + c + d =~= a + (b + c + d));
}

/// A response tells with one header whether the connection stays open, and the header that
/// tells the opposite occurs nowhere in it; responses that differ in this alone are equal
/// otherwise. The length that it tells is that of its body.
pub proof fn law_response_tells_one_thing(version: (u16, u16), keepalive: bool)
    ensures
        response_bytes(version, keepalive) == before_connection(version) + connection_header(
            keepalive,
        ) + after_connection(),
        response_bytes(version, keepalive) == response_head(version, greeting().len(), keepalive)
            + greeting(),
        occurs(response_bytes(version, keepalive), connection_header(keepalive)),
        !occurs(response_bytes(version, keepalive), connection_header(!keepalive)),
{
    let bytes = response_bytes(version, keepalive);
    let before = before_connection(version);
    let own = connection_header(keepalive);
    let after = after_connection();
    let powered = "X-Powered-By: Cocaine\r\n".spec_bytes();
    let end = "\r\n".spec_bytes();
    assert(bytes == before + own + after) by {
        lemma_regroup(before + own, powered, end, greeting());
    }
    assert(bytes.subrange(before.len() as int, (before.len() + own.len()) as int) =~= own);
    let start = "HTTP/".spec_bytes() + decimal(version.0 as nat) + ".".spec_bytes() + decimal(
        version.1 as nat,
    ) + " 200 OK\r\n".spec_bytes() + "Server: xyio/0.1.0\r\n".spec_bytes();
    assert(bytes == start + tail(keepalive)) by {
        reveal(tail);
        let name = "Content-Length: ".spec_bytes();
        let length = decimal(15);
        lemma_regroup(start, name, length, end);
        lemma_regroup(start, name + length + end, own, after);
    }
    lemma_start_without_c(version);
    lemma_opposite_is_absent(start, keepalive);
}

/// How the header that tells whether the connection stays open begins, and where its capital Cs
/// are.
proof fn lemma_header_text(keepalive: bool)
    ensures
        connection_header(keepalive).len() >= 19,
        connection_header(keepalive)[0] == 67,
        connection_header(keepalive)[1] == 111,
        connection_header(keepalive)[2] == 110,
        connection_header(keepalive)[3] == 110,
        connection_header(keepalive)[12] == (if keepalive {
            75u8
        } else {
            67u8
        }),
        !keepalive ==> connection_header(keepalive)[13] == 108,
        forall|i: int|
            0 < i < connection_header(keepalive).len() && i != 12
                ==> #[trigger] connection_header(keepalive)[i] != 67,
{
    broadcast use is_ascii_spec_bytes;

    reveal_strlit("Connection: Keep-Alive\r\n");
    reveal_strlit("Connection: Close\r\n");
    assert(is_ascii("Connection: Keep-Alive\r\n"));
    assert(is_ascii("Connection: Close\r\n"));
}

/// The views tell the fields: the target and the headers of a request, and the free buffers and the
/// paused reader of a connection.
pub proof fn law_views_tell_the_fields<R>(
    request: Request,
    state: ConnectionState<R>,
    bufs: Seq<Vec<u8>>,
    i: int,
)
    ensures
        request@.url == request.url@,
        request@.headers == request.headers@,
        state@.bufs == contents(state.bufs@),
        state@.rd == state.rd,
        contents(bufs).len() == bufs.len(),
        0 <= i < bufs.len() ==> contents(bufs)[i] == bufs[i]@,
        RequestView::empty().url.len() == 0,
        RequestView::empty().headers.len() == 0,
{
}

/// The view tells what a handler holds.
pub proof fn law_view_tells_the_handler(h: Handler)
    ensures
        h@.request == h.request@,
        h@.buf is Some <==> h.buf is Some,
        h.buf matches Some(buf) ==> h@.buf == Some(buf@),
        h@.count == h.count,
        h@.head == h.head,
        h@.request_line == h.request_line,
        h@.refusal == h.refusal,
{
}

/// A new connection has 64 empty buffers and no paused reader. A pause keeps the reader, asking
/// for more hands it out, and a response that has been written gives back an empty buffer.
pub proof fn law_buffers_come_and_go<R>(v: StateView<R>, reader: R, i: int)
    ensures
        StateView::<R>::initial().bufs.len() == 64,
        0 <= i < 64 ==> StateView::<R>::initial().bufs[i].len() == 0,
        StateView::<R>::initial().rd is None,
        v.pause(reader).rd == Some(reader),
        v.pause(reader).bufs == v.bufs,
        v.read_more().rd is None,
        v.read_more().bufs == v.bufs,
        v.written().rd is None,
        v.written().bufs.len() == v.bufs.len() + 1,
        v.written().bufs.drop_last() == v.bufs,
        v.written().bufs.last().len() == 0,
{
    assert(v.written().bufs.drop_last() =~= v.bufs);
}

/// Before the first request a handler has seen nothing and refused nothing.
pub proof fn law_new_handler_has_seen_nothing()
    ensures
        HandlerView::initial().request == RequestView::empty(),
        HandlerView::initial().buf is None,
        HandlerView::initial().count == 0,
        !HandlerView::initial().head,
        !HandlerView::initial().request_line,
        HandlerView::initial().refusal is None,
{
}

/// A request begins with its request line, and with the last of the free buffers if there is one.
/// What was known before stays.
pub proof fn law_request_begins_with_a_buffer(h: HandlerView, bufs: Seq<Seq<u8>>)
    ensures
        ({
            let after = h.message_begin(bufs);
            &&& bufs.len() > 0 ==> after.buf == Some(bufs.last())
            &&& bufs.len() == 0 ==> after.buf is None
            &&& after.head
            &&& after.request_line
            &&& after.request == h.request
            &&& after.count == h.count
            &&& after.refusal == h.refusal
        }),
{
}

/// A part of a target comes behind the parts before it, and nothing else changes.
pub proof fn law_target_part_is_appended(h: HandlerView, part: Seq<u8>)
    ensures
        ({
            let after = h.url(part);
            &&& after.request.url == h.request.url + part
            &&& after.request.headers == h.request.headers
            &&& after.buf == h.buf
            &&& after.count == h.count
            &&& after.head == h.head
            &&& after.request_line == h.request_line
            &&& after.refusal == h.refusal
        }),
{
}

/// A header field is part of a head, and the end of a line ends the request line; neither changes
/// anything else.
pub proof fn law_lines_of_a_head(h: HandlerView)
    ensures
        ({
            let after = h.header_field();
            &&& after.head
            &&& after.request_line == h.request_line
            &&& after.request == h.request
            &&& after.buf == h.buf
            &&& after.count == h.count
            &&& after.refusal == h.refusal
        }),
        ({
            let after = h.line_end();
            &&& !after.request_line
            &&& after.head == h.head
            &&& after.request == h.request
            &&& after.buf == h.buf
            &&& after.count == h.count
            &&& after.refusal == h.refusal
        }),
{
}

/// A request that has been handed on is forgotten, with its buffer, and its head is over. It counts
/// when it has been read to its end, and only once.
pub proof fn law_requests_are_handed_on_and_counted(h: HandlerView)
    ensures
        ({
            let after = h.handed_on();
            &&& after.request == RequestView::empty()
            &&& after.buf is None
            &&& !after.head
            &&& after.request_line == h.request_line
            &&& after.count == h.count
            &&& after.refusal == h.refusal
        }),
        ({
            let after = h.message_complete();
            &&& after.count == h.count + 1
            &&& !after.head
            &&& after.request_line == h.request_line
            &&& after.request == h.request
            &&& after.buf == h.buf
            &&& after.refusal == h.refusal
        }),
{
}

/// A request is refused with 414 while its request line is being read and with 400 after that, and
/// nothing else changes.
pub proof fn law_refusal_is_noted(h: HandlerView)
    ensures
        ({
            let after = h.refused();
            &&& h.request_line ==> after.refusal == Some(Refusal::UriTooLong)
            &&& !h.request_line ==> after.refusal == Some(Refusal::BadRequest)
            &&& after.request == h.request
            &&& after.buf == h.buf
            &&& after.count == h.count
            &&& after.head == h.head
            &&& after.request_line == h.request_line
        }),
{
}

/// The body is a text of eight characters in UTF-8: each pair of bytes is one of them, and between
/// the first two and the rest is a blank.
pub proof fn law_greeting_is_text(i: int)
    ensures
        greeting().len() == 15,
        greeting()[4] == 0x20,
        0 <= i < 7 ==> ({
            let k = if i < 2 {
                2 * i
            } else {
                2 * i + 1
            };
            64 * (greeting()[k] - 0xC0) + (greeting()[k + 1] - 0x80) == seq![
                0x422int,
                0x44Bint,
                0x43Fint,
                0x438int,
                0x434int,
                0x43Eint,
                0x440int,
            ][i]
        }),
        0 <= i < 7 ==> ({
            let k = if i < 2 {
                2 * i
            } else {
                2 * i + 1
            };
            0xC0 <= greeting()[k] < 0xE0 && 0x80 <= greeting()[k + 1] < 0xC0
        }),
{
}

/// A response says `Keep-Alive` and not `Close` if the connection stays open, and `Close` and not
/// `Keep-Alive` if it does not, whatever the version.
pub proof fn law_response_says_what_becomes_of_the_connection(version: (u16, u16))
    ensures
        occurs(response_bytes(version, true), "Connection: Keep-Alive\r\n".spec_bytes()),
        !occurs(response_bytes(version, true), "Connection: Close\r\n".spec_bytes()),
        occurs(response_bytes(version, false), "Connection: Close\r\n".spec_bytes()),
        !occurs(response_bytes(version, false), "Connection: Keep-Alive\r\n".spec_bytes()),
{
    law_response_tells_one_thing(version, true);
    law_response_tells_one_thing(version, false);
}

/// A text occurs in some bytes exactly if they are something, the text, and something.
pub proof fn law_text_occurs_between(before: Seq<u8>, text: Seq<u8>, after: Seq<u8>)
    ensures
        occurs(before + text + after, text),
        forall|bytes: Seq<u8>| #[trigger]
            occurs(bytes, text) ==> exists|i: int|
                0 <= i <= bytes.len() - text.len() && bytes == #[trigger] bytes.take(i) + text
                    + bytes.skip(i + text.len()),
{
    let all = before + text + after;
    let n = before.len() as int;
    assert(all.subrange(n, n + text.len()) =~= text);
    assert forall|bytes: Seq<u8>| #[trigger] occurs(bytes, text) implies exists|i: int|
        0 <= i <= bytes.len() - text.len() && bytes == #[trigger] bytes.take(i) + text
            + bytes.skip(i + text.len()) by {
        let i = choose|i: int|
            0 <= i && i + text.len() <= bytes.len() && #[trigger] bytes.subrange(
                i,
                i + text.len(),
            ) == text;
        assert(bytes =~= bytes.take(i) + bytes.subrange(i, i + text.len()) + bytes.skip(
            i + text.len(),
        ));
    }
}

/// A response is a status line with the version of the request, the lines of its headers, a blank
/// line and the body, whose length it tells.
pub proof fn law_response_is_made_of_lines(version: (u16, u16), keepalive: bool)
    ensures
        ({
            let status = "HTTP/".spec_bytes() + decimal(version.0 as nat) + ".".spec_bytes()
                + decimal(version.1 as nat) + " 200 OK\r\n".spec_bytes();
            let length = "Content-Length: ".spec_bytes() + decimal(15) + "\r\n".spec_bytes();
            let connection = if keepalive {
                "Connection: Keep-Alive\r\n".spec_bytes()
            } else {
                "Connection: Close\r\n".spec_bytes()
            };
            response_bytes(version, keepalive) == status + "Server: xyio/0.1.0\r\n".spec_bytes()
                + length + connection + "X-Powered-By: Cocaine\r\n".spec_bytes()
                + "\r\n".spec_bytes() + greeting()
        }),
{
    let status = "HTTP/".spec_bytes() + decimal(version.0 as nat) + ".".spec_bytes() + decimal(
        version.1 as nat,
    ) + " 200 OK\r\n".spec_bytes();
    let server = "Server: xyio/0.1.0\r\n".spec_bytes();
    let name = "Content-Length: ".spec_bytes();
    let end = "\r\n".spec_bytes();
    lemma_regroup(status + server, name, decimal(15), end);
}

/// A refusal is its status line, the headers that say that there is no body and that the connection
/// closes, and a blank line.
pub proof fn law_refusal_is_made_of_lines(refusal: Refusal)
    ensures
        ({
            let status = match refusal {
                Refusal::UriTooLong => "HTTP/1.1 414 URI Too Long\r\n",
                Refusal::BadRequest => "HTTP/1.1 400 Bad Request\r\n",
            };
            refusal_bytes(refusal) == status.spec_bytes()
                + "Server: xyio/0.1.0\r\n".spec_bytes() + "Content-Length: 0\r\n".spec_bytes()
                + "Connection: Close\r\n".spec_bytes() + "\r\n".spec_bytes()
        }),
{
}

} // verus!
