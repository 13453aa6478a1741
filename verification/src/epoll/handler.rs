//! A connection that answers with a response that is built once.

use vstd::prelude::*;

use crate::epoll::SocketRef;
use crate::http::muncher::completes;
use crate::http::muncher::event_views;
use crate::http::muncher::found;
use crate::http::muncher::has_failed;
use crate::http::muncher::law_completed_requests_are_counted;
use crate::http::muncher::Event;
use crate::http::muncher::Fed;
use crate::http::muncher::Parse;
use crate::http::muncher::ParseView;
use crate::http::muncher::RequestParser;
use crate::http::refusal::READ_BUFFER_SIZE;
use crate::http::server::response_bytes;
use crate::http::server::Response;
use crate::operation::IoError;

verus! {

/// What a connection does next.
#[derive(Clone, Copy, Debug, PartialEq, Eq, Structural)]
pub enum Next {
    /// It closes its socket: the peer has closed its side.
    Close,
    /// Nothing more.
    Drop,
    /// It reads more of a request.
    Read,
    /// It writes its response.
    Write,
}

/// A connection.
#[derive(Debug)]
pub struct HttpReadHandlerRef {
    pub rdbuf: Vec<u8>,
    pub wrbuf: Vec<u8>,
    /// How much of the response has been written.
    pub written: usize,
    pub parser: RequestParser,
    /// Whether the parser has seen the end of a request.
    pub complete: bool,
    pub socket: SocketRef,
}

/// What a [`HttpReadHandlerRef`] holds besides its parser.
#[verifier::ext_equal]
pub struct HandlerView {
    pub rdbuf: Seq<u8>,
    pub wrbuf: Seq<u8>,
    pub written: int,
    pub complete: bool,
    pub socket: SocketRef,
}

impl View for HttpReadHandlerRef {
    type V = HandlerView;

    open spec fn view(&self) -> HandlerView {
        HandlerView {
            rdbuf: self.rdbuf@,
            wrbuf: self.wrbuf@,
            written: self.written as int,
            complete: self.complete,
            socket: self.socket,
        }
    }
}

impl HandlerView {
    /// Before the first read.
    pub open spec fn initial(socket: SocketRef) -> Self {
        HandlerView {
            rdbuf: Seq::new(READ_BUFFER_SIZE as nat, |i: int| 0u8),
            wrbuf: response_bytes((1u16, 1u16), true),
            written: 0,
            complete: false,
            socket,
        }
    }

    /// The connection once the parser has made `parse` of `nread` bytes and, where `failed`,
    /// has met an error.
    pub open spec fn parsed(self, nread: int, parse: ParseView, failed: bool) -> (Self, Next) {
        let complete = self.complete || completes(parse.events) > 0;
        let next = if parse.nparsed != nread || failed {
            Next::Drop
        } else if complete {
            Next::Write
        } else {
            Next::Read
        };
        (HandlerView { complete, ..self }, next)
    }
}

impl HttpReadHandlerRef {
    /// A new connection on `socket`.
    pub fn new(socket: SocketRef) -> (r: Self)
        ensures
            r@ == HandlerView::initial(socket),
            r.parser.history() == Seq::<Fed>::empty(),
            !r.parser.paused(),
    {
        let response = Response::new(0, Vec::new(), (1, 1), true).finish();
        assert(response.buf@ =~= response_bytes((1u16, 1u16), true));
        let rdbuf: Vec<u8> = vec![0u8; READ_BUFFER_SIZE];
        assert(rdbuf@ =~= Seq::new(READ_BUFFER_SIZE as nat, |i: int| 0u8));
        HttpReadHandlerRef {
            rdbuf,
            wrbuf: response.buf,
            written: 0,
            parser: RequestParser::new(),
            complete: false,
            socket,
        }
    }

    /// The buffer that a read fills.
    pub fn buf(&mut self) -> (r: &mut [u8])
        ensures
            r@ == old(self).rdbuf@,
            final(self)@ == (HandlerView { rdbuf: final(r)@, ..old(self)@ }),
            final(self).parser == old(self).parser,
    {
        self.rdbuf.as_mut_slice()
    }

    /// What is to be written.
    pub fn get_buf(&self) -> (r: &[u8])
        ensures
            r@ == self.wrbuf@,
    {
        self.wrbuf.as_slice()
    }

    /// The parser has seen the end of a request. Tells it to go on.
    pub fn on_message_complete(&mut self) -> (r: bool)
        ensures
            r,
            final(self)@ == (HandlerView { complete: true, ..old(self)@ }),
            final(self).parser == old(self).parser,
    {
        self.complete = true;
        true
    }

    /// The first `nread` bytes of the buffer have been given to the parser, with the outcome
    /// `parse`; `failed` is whether it has met an error.
    pub fn on_parsed(&mut self, nread: usize, parse: &Parse, failed: bool) -> (r: Next)
        ensures
            (final(self)@, r) == old(self)@.parsed(nread as int, parse@, failed),
            final(self).parser == old(self).parser,
    {
        let ghost views = event_views(parse.events@);
        let mut i: usize = 0;
        assert(views.take(0) =~= Seq::empty());
        while i < parse.events.len()
            invariant
                i <= parse.events.len(),
                views == event_views(parse.events@),
                self@ == (HandlerView {
                    complete: old(self).complete || completes(views.take(i as int)) > 0,
                    ..old(self)@
                }),
                self.parser == old(self).parser,
            decreases parse.events.len() - i,
        {
            assert(views.take(i + 1).drop_last() =~= views.take(i as int));
            assert(views.take(i + 1).last() == parse.events@[i as int]@);
            if let Event::MessageComplete = &parse.events[i] {
                self.on_message_complete();
            }
            i = i + 1;
        }
        assert(views.take(i as int) =~= views);
        if parse.nparsed != nread {
            return Next::Drop;
        }
        if failed {
            return Next::Drop;
        }
        if self.complete {
            return Next::Write;
        }
        Next::Read
    }

    /// A read into the buffer has ended in `nread`, which is no failure: what has been read is
    /// parsed.
    pub fn on_read(self, nread: Result<usize, IoError>) -> (r: (Self, Next))
        requires
            nread is Ok,
            nread->Ok_0 <= self.rdbuf@.len(),
        ensures
            nread->Ok_0 == 0 ==> r.1 == Next::Close && r.0 == self,
            nread->Ok_0 > 0 ==> ({
                let done = self.parser.given(None, self.rdbuf@.take(nread->Ok_0 as int));
                &&& r.0.parser.history() == done
                &&& r.0.parser.paused() == found(done).paused
                &&& (r.0@, r.1) == self@.parsed(
                    nread->Ok_0 as int,
                    found(done),
                    has_failed(done),
                )
            }),
    {
        let n: usize = match nread {
            Ok(n) => n,
            Err(_) => 0,
        };
        if n == 0 {
            return (self, Next::Close);
        }
        let HttpReadHandlerRef { rdbuf, wrbuf, written, parser, complete, socket } = self;
        let data = vstd::slice::slice_subrange(rdbuf.as_slice(), 0, n);
        assert(data@ =~= rdbuf@.take(n as int));
        let (parser, parse) = parser.parse(None, data);
        let failed = parser.has_error();
        let mut handler = HttpReadHandlerRef { rdbuf, wrbuf, written, parser, complete, socket };
        let next = handler.on_parsed(n, &parse, failed);
        (handler, next)
    }

    /// A write has ended in `len`, which is no failure.
    pub fn on_write(&mut self, len: Result<usize, IoError>) -> (r: Next)
        requires
            len is Ok,
            old(self).written + len->Ok_0 <= usize::MAX,
        ensures
            final(self).parser == old(self).parser,
            ({
                let written = old(self).written + len->Ok_0;
                if written == old(self).wrbuf@.len() {
                    r == Next::Read && final(self)@ == (HandlerView { written: 0, ..old(self)@ })
                } else {
                    r == Next::Drop && final(self)@ == (HandlerView { written, ..old(self)@ })
                }
            }),
    {
        if let Ok(len) = len {
            self.written = self.written + len;
        }
        if self.written == self.wrbuf.len() {
            self.written = 0;
            Next::Read
        } else {
            Next::Drop
        }
    }
}

/// The view tells the fields.
pub proof fn law_view_tells_the_connection(c: HttpReadHandlerRef)
    ensures
        c@.rdbuf == c.rdbuf@,
        c@.wrbuf == c.wrbuf@,
        c@.written == c.written,
        c@.complete == c.complete,
        c@.socket == c.socket,
{
}

/// A new connection has read and written nothing, and its response is built: it is the one to a
/// request of HTTP/1.1 that keeps the connection open.
pub proof fn law_new_connection_has_its_response(socket: SocketRef, i: int)
    ensures
        ({
            let c = HandlerView::initial(socket);
            &&& c.rdbuf.len() == 4096
            &&& 0 <= i < 4096 ==> c.rdbuf[i] == 0
            &&& c.wrbuf == response_bytes((1u16, 1u16), true)
            &&& c.written == 0
            &&& !c.complete
            &&& c.socket == socket
        }),
{
}

/// Every request is answered: a read that the parser takes whole and without an error is followed
/// by a write of the response if a request comes to its end in it, whatever has been answered
/// before. Nothing but the note that a request has been completed changes, and once set it stays.
pub proof fn law_completed_request_is_answered(
    c: HandlerView,
    nread: int,
    parse: ParseView,
    failed: bool,
)
    ensures
        ({
            let (after, next) = c.parsed(nread, parse, failed);
            let ends = exists|i: int|
                0 <= i < parse.events.len() && #[trigger] parse.events[i] is MessageComplete;
            &&& parse.nparsed == nread && !failed && ends ==> next is Write
            &&& parse.nparsed == nread && !failed && c.complete ==> next is Write
            &&& parse.nparsed == nread && !failed && !ends && !c.complete ==> next is Read
            &&& parse.nparsed != nread || failed ==> next is Drop
            &&& ends || c.complete ==> after.complete
            &&& !ends && !c.complete ==> !after.complete
            &&& after.rdbuf == c.rdbuf
            &&& after.wrbuf == c.wrbuf
            &&& after.written == c.written
            &&& after.socket == c.socket
        }),
{
    law_completed_requests_are_counted(parse.events);
}

/// Two requests on one connection are both answered, however the first one went.
pub proof fn law_next_request_is_answered_too(
    c: HandlerView,
    first: ParseView,
    second: ParseView,
)
    requires
        completes(second.events) > 0,
    ensures
        ({
            let (between, _) = c.parsed(first.nparsed as int, first, false);
            between.parsed(second.nparsed as int, second, false).1 is Write
        }),
{
}

} // verus!
