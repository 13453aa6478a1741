//! The reader of a pipelined connection: it receives, has the bytes parsed, and hands on the
//! requests that are found.

use vstd::prelude::*;

use crate::http::muncher::body_len;
use crate::http::muncher::completes;
use crate::http::muncher::ends_complete;
use crate::http::muncher::event_views;
use crate::http::muncher::found;
use crate::http::muncher::given;
use crate::http::muncher::has_failed;
use crate::http::muncher::lemma_completes_take;
use crate::http::muncher::pauses;
use crate::http::muncher::remaining;
use crate::http::muncher::upgrades;
use crate::http::muncher::Event;
use crate::http::muncher::EventView;
use crate::http::muncher::Fed;
use crate::http::muncher::Parse;
use crate::http::muncher::ParseView;
use crate::http::muncher::RequestParser;
use crate::http::refusal::Refusal;
use crate::http::refusal::READ_BUFFER_SIZE;
use crate::http::server::contents;
use crate::http::server::ConnectionState;
use crate::http::server::Handler;
use crate::http::server::HandlerView;
use crate::http::server::Request;
use crate::http::server::RequestView;
use crate::http::server::Response;
use crate::http::server::PIPELINE_NUMBER;
use crate::operation::IoError;

verus! {

/// What becomes of a connection after a receive.
#[derive(Clone, Copy, Debug, PartialEq, Eq, Structural)]
pub enum Parsed {
    /// The request is refused: its answer is written, and the connection is dropped.
    Refuse,
    /// There is no free response buffer: the reader is paused.
    Pause,
    /// The stream has ended or failed, or its bytes are not HTTP: the connection is dropped.
    Close,
    /// There is more to receive.
    Receive,
}

/// What has come of a receive.
#[derive(Debug)]
pub struct Outcome {
    /// The requests to answer, in order, each with its response.
    pub requests: Vec<(Request, Response)>,
    pub next: Parsed,
}

/// A request to answer, with its response.
#[verifier::ext_equal]
pub struct PendingView {
    pub request: RequestView,
    pub id: int,
    pub buf: Seq<u8>,
    pub version: (u16, u16),
    pub keepalive: bool,
}

/// A request to answer, with its response.
pub open spec fn pending_view(pending: (Request, Response)) -> PendingView {
    PendingView {
        request: pending.0@,
        id: pending.1.id as int,
        buf: pending.1.buf@,
        version: pending.1.version,
        keepalive: pending.1.keepalive,
    }
}

/// Requests to answer.
pub open spec fn pending_views(requests: Seq<(Request, Response)>) -> Seq<PendingView> {
    requests.map_values(|pending: (Request, Response)| pending_view(pending))
}

/// How far what the parser has found has been worked off.
#[verifier::ext_equal]
pub struct Progress {
    pub handler: HandlerView,
    /// The free response buffers.
    pub bufs: Seq<Seq<u8>>,
    /// The requests to answer so far.
    pub requests: Seq<PendingView>,
    /// Whether there were headers of a request that had no response buffer.
    pub lost: bool,
    /// Whether a request was complete while no response buffer was free.
    pub paused: bool,
}

impl Progress {
    /// Before the first event.
    pub open spec fn start(
        handler: HandlerView,
        bufs: Seq<Seq<u8>>,
        requests: Seq<PendingView>,
    ) -> Self {
        Progress { handler, bufs, requests, lost: false, paused: false }
    }

    /// Whether further events do not matter: the connection will be dropped.
    pub open spec fn stopped(self) -> bool {
        self.lost || self.handler.refusal is Some
    }

    /// After one more event.
    pub open spec fn event(self, event: EventView) -> Self {
        if self.stopped() {
            self
        } else {
            match event {
                EventView::MessageBegin => Progress {
                    handler: self.handler.message_begin(self.bufs),
                    bufs: if self.bufs.len() > 0 {
                        self.bufs.drop_last()
                    } else {
                        Seq::empty()
                    },
                    ..self
                },
                EventView::Url(part) => Progress { handler: self.handler.url(part), ..self },
                EventView::HeaderField(_) => Progress {
                    handler: self.handler.header_field(),
                    ..self
                },
                EventView::HeaderValue(_) => self,
                EventView::HeadersComplete(version, keepalive) => self.headers(version, keepalive),
                EventView::Body(_) => self,
                EventView::MessageComplete => Progress {
                    handler: self.handler.message_complete(),
                    paused: self.paused || self.bufs.len() == 0,
                    ..self
                },
            }
        }
    }

    /// After the headers of a request: it is handed on.
    pub open spec fn headers(self, version: (u16, u16), keepalive: bool) -> Self {
        match self.handler.buf {
            None => Progress { lost: true, ..self },
            Some(buf) => {
                let pending = PendingView {
                    request: self.handler.request,
                    id: self.handler.count % PIPELINE_NUMBER as int,
                    buf,
                    version,
                    keepalive,
                };
                Progress {
                    handler: self.handler.handed_on(),
                    requests: self.requests.push(pending),
                    ..self
                }
            },
        }
    }

    /// After some events.
    pub open spec fn events(self, events: Seq<EventView>) -> Self
        decreases events.len(),
    {
        if events.len() == 0 {
            self
        } else {
            self.events(events.drop_last()).event(events.last())
        }
    }
}

/// Works off what the parser has found, and adds the requests to answer to `requests`. Tells
/// whether there were headers of a request that had no response buffer, and whether a request
/// was complete while no response buffer was free.
pub fn process<R>(
    handler: &mut Handler,
    state: &mut ConnectionState<R>,
    events: &Vec<Event>,
    requests: &mut Vec<(Request, Response)>,
) -> (r: (bool, bool))
    requires
        old(handler).count + completes(event_views(events@)) <= usize::MAX,
    ensures
        final(state).rd == old(state).rd,
        Progress::start(
            old(handler)@,
            contents(old(state).bufs@),
            pending_views(old(requests)@),
        ).events(event_views(events@)) == (Progress {
            handler: final(handler)@,
            bufs: contents(final(state).bufs@),
            requests: pending_views(final(requests)@),
            lost: r.0,
            paused: r.1,
        }),
{
    let ghost start = Progress::start(handler@, contents(state.bufs@), pending_views(requests@));
    let ghost views = event_views(events@);
    let mut lost = false;
    let mut pause = false;
    let mut i: usize = 0;
    assert(views.take(0) =~= Seq::empty());
    while i < events.len()
        invariant
            i <= events.len(),
            state.rd == old(state).rd,
            views == event_views(events@),
            old(handler).count + completes(views) <= usize::MAX,
            handler.count <= old(handler).count + completes(views.take(i as int)),
            start.events(views.take(i as int)) == (Progress {
                handler: handler@,
                bufs: contents(state.bufs@),
                requests: pending_views(requests@),
                lost,
                paused: pause,
            }),
        decreases events.len() - i,
    {
        proof {
            assert(views.take(i + 1).drop_last() =~= views.take(i as int));
            assert(views.take(i + 1).last() == events@[i as int]@);
            lemma_completes_take(views, i + 1);
        }
        if !lost && handler.refusal.is_none() {
            match &events[i] {
                Event::MessageBegin => {
                    handler.on_message_begin(state);
                },
                Event::Url(part) => {
                    handler.on_url(part.as_slice());
                },
                Event::HeaderField(_) => {
                    handler.on_header_field();
                },
                Event::HeaderValue(_) => {},
                Event::HeadersComplete(version, keepalive) => {
                    if handler.buf.is_some() {
                        let ghost done = requests@;
                        let pending = handler.on_headers_complete(*version, *keepalive);
                        requests.push(pending);
                        assert(pending_views(requests@) =~= pending_views(done).push(
                            pending_view(pending),
                        ));
                    } else {
                        lost = true;
                    }
                },
                Event::Body(_) => {},
                Event::MessageComplete => {
                    if handler.on_message_complete(state) {
                        pause = true;
                    }
                },
            }
        }
        i = i + 1;
    }
    assert(views.take(i as int) =~= views);
    (lost, pause)
}

/// How many bytes of bodies are among some events, or `limit` if there are more.
fn body_bytes(events: &Vec<Event>, limit: usize) -> (r: usize)
    ensures
        r == (if body_len(event_views(events@)) < limit {
            body_len(event_views(events@)) as int
        } else {
            limit as int
        }),
{
    let ghost views = event_views(events@);
    let mut sum: usize = 0;
    let mut i: usize = 0;
    assert(views.take(0) =~= Seq::empty());
    while i < events.len()
        invariant
            i <= events.len(),
            views == event_views(events@),
            sum <= limit,
            sum == (if body_len(views.take(i as int)) < limit {
                body_len(views.take(i as int)) as int
            } else {
                limit as int
            }),
        decreases events.len() - i,
    {
        assert(views.take(i + 1).drop_last() =~= views.take(i as int));
        assert(views.take(i + 1).last() == events@[i as int]@);
        if let Event::Body(len) = &events[i] {
            sum = if *len < limit - sum {
                sum + *len
            } else {
                limit
            };
        }
        i = i + 1;
    }
    assert(views.take(i as int) =~= views);
    sum
}

/// The length of the first line of `data` with its line feed, or of all of it if it has none.
pub open spec fn first_line(data: Seq<u8>) -> nat
    decreases data.len(),
{
    if data.len() == 0 {
        0
    } else if data[0] == 10 {
        1
    } else {
        1 + first_line(data.skip(1))
    }
}

/// A first line is not empty where there is anything, and no longer than all there is.
proof fn lemma_first_line(data: Seq<u8>)
    ensures
        first_line(data) <= data.len(),
        data.len() > 0 ==> first_line(data) > 0,
    decreases data.len(),
{
    if data.len() > 0 && data[0] != 10 {
        lemma_first_line(data.skip(1));
    }
}

/// The end of the first line of `data` from `from` on.
fn line_from(data: &[u8], from: usize) -> (r: usize)
    requires
        from < data@.len(),
    ensures
        r == from + first_line(data@.skip(from as int)),
        from < r <= data@.len(),
{
    let mut i: usize = from;
    proof {
        lemma_first_line(data@.skip(from as int));
    }
    while i < data.len()
        invariant
            from <= i <= data@.len(),
            from + first_line(data@.skip(from as int)) == i + first_line(data@.skip(i as int)),
            0 < first_line(data@.skip(from as int)) <= data@.len() - from,
        decreases data@.len() - i,
    {
        let ghost rest = data@.skip(i as int);
        assert(rest[0] == data@[i as int]);
        assert(rest.skip(1) =~= data@.skip(i + 1));
        if data[i] == 10 {
            return i + 1;
        }
        i = i + 1;
    }
    i
}

/// How many bytes at the end of a line, as far as it has been received, end the line: a line
/// feed, and a carriage return that is the last byte or comes before it.
pub open spec fn line_end(line: Seq<u8>) -> nat {
    if line.last() == 10 {
        if line.len() >= 2 && line[line.len() - 2] == 13 {
            2
        } else {
            1
        }
    } else if line.last() == 13 {
        1
    } else {
        0
    }
}

/// Counts the bytes of the request line or of the header field that is being read, as they
/// were received.
#[derive(Clone, Copy, Debug, PartialEq, Eq, Structural)]
pub struct LineCounter {
    /// How many bytes have been read.
    pub line: usize,
    /// Whether the last of them was a line feed.
    pub ended: bool,
}

/// Where a connection stands behind a line.
#[verifier::ext_equal]
pub struct LineView {
    pub progress: Progress,
    /// How many bytes of the request line or of the header field have been read.
    pub line: nat,
    /// Whether the last of them was a line feed.
    pub ended: bool,
    /// Whether the parser has not taken the line.
    pub failed: bool,
}

impl LineView {
    /// Whether no more lines are given to the parser.
    pub open spec fn done(self) -> bool {
        self.progress.stopped() || self.progress.paused || self.failed
    }

    /// Whether a line goes on with the header field before it: it begins with a blank.
    pub open spec fn folds(self, line: Seq<u8>) -> bool {
        &&& self.progress.handler.head
        &&& !self.progress.handler.request_line
        &&& line[0] == 32 || line[0] == 9
    }

    /// How many bytes have been read of what `line` goes on with.
    pub open spec fn begun(self, line: Seq<u8>) -> nat {
        if self.ended && !self.folds(line) {
            0
        } else {
            self.line
        }
    }

    /// How many bytes of the request line or of the header field have been read with `line`,
    /// in which the parser has found `events`: the bytes of a body do not count.
    pub open spec fn counted(self, line: Seq<u8>, events: Seq<EventView>) -> nat {
        self.begun(line) + if body_len(events) < line.len() {
            (line.len() - body_len(events)) as nat
        } else {
            0
        }
    }

    /// Behind `line`, or as much of it as has been received, of which the parser has made
    /// `parse`; `failed` is whether the parser has met an error. A request line or a header
    /// field that is longer than the read buffer, not counting its end, is refused. A line feed
    /// on its own adds nothing to what is compared: it is the end of what came before.
    pub open spec fn line(self, line: Seq<u8>, parse: ParseView, failed: bool) -> Self {
        let p = self.progress.events(parse.events);
        let whole = parse.nparsed == line.len();
        let head = !p.stopped() && whole && p.handler.head;
        let counted = self.counted(line, parse.events);
        let too_long = head && line != seq![10u8] && counted > READ_BUFFER_SIZE + line_end(line);
        LineView {
            progress: if too_long {
                Progress { handler: p.handler.refused(), ..p }
            } else if head && line.last() == 10 {
                Progress { handler: p.handler.line_end(), ..p }
            } else {
                p
            },
            line: if head && !too_long {
                counted
            } else {
                0
            },
            ended: line.last() == 10,
            failed: failed || !whole,
        }
    }
}

impl LineCounter {
    /// No line that is longer than the read buffer, not counting its end, is read on.
    pub open spec fn wf(self) -> bool {
        &&& self.line <= READ_BUFFER_SIZE + 2
        &&& !self.ended ==> self.line <= READ_BUFFER_SIZE + 1
    }

    /// Nothing has been read.
    pub fn new() -> (r: Self)
        ensures
            r == (LineCounter { line: 0, ended: true }),
            r.wf(),
    {
        LineCounter { line: 0, ended: true }
    }

    /// A line, or as much of it as has been received, has been given to the parser, with the
    /// outcome `parse`; `failed` is whether the parser has met an error. Adds the requests to
    /// answer to `requests`. Tells whether there were headers of a request that had no response
    /// buffer, whether a request was complete while no response buffer was free, and whether
    /// the parser has not taken the line.
    pub fn on_line<R>(
        &mut self,
        line: &[u8],
        parse: &Parse,
        failed: bool,
        handler: &mut Handler,
        state: &mut ConnectionState<R>,
        requests: &mut Vec<(Request, Response)>,
    ) -> (r: (bool, bool, bool))
        requires
            old(self).wf(),
            0 < line@.len() <= READ_BUFFER_SIZE,
            old(handler).count + completes(parse@.events) <= usize::MAX,
        ensures
            final(self).wf(),
            final(state).rd == old(state).rd,
            (LineView {
                progress: Progress::start(
                    old(handler)@,
                    contents(old(state).bufs@),
                    pending_views(old(requests)@),
                ),
                line: old(self).line as nat,
                ended: old(self).ended,
                failed: false,
            }).line(line@, parse@, failed) == (LineView {
                progress: Progress {
                    handler: final(handler)@,
                    bufs: contents(final(state).bufs@),
                    requests: pending_views(final(requests)@),
                    lost: r.0,
                    paused: r.1,
                },
                line: final(self).line as nat,
                ended: final(self).ended,
                failed: r.2,
            }),
    {
        let len: usize = line.len();
        let first: u8 = line[0];
        let last: u8 = line[len - 1];
        let folds = handler.head && !handler.request_line && (first == 32 || first == 9);
        let begun: usize = if self.ended && !folds {
            0
        } else {
            self.line
        };
        let (lost, pause) = process(handler, state, &parse.events, requests);
        let whole = parse.nparsed == len;
        let head = !lost && handler.refusal.is_none() && whole && handler.head;
        let counted: usize = begun + (len - body_bytes(&parse.events, len));
        let end: usize = if last == 10 {
            if len >= 2 && line[len - 2] == 13 {
                2
            } else {
                1
            }
        } else if last == 13 {
            1
        } else {
            0
        };
        let lone = len == 1 && last == 10;
        assert(lone == (line@ == seq![10u8])) by {
            if lone {
                assert(line@ =~= seq![10u8]);
            }
        }
        if head && !lone && counted > READ_BUFFER_SIZE + end {
            handler.refuse();
            self.line = 0;
        } else if head {
            if last == 10 {
                handler.on_line_end();
            }
            self.line = counted;
        } else {
            self.line = 0;
        }
        self.ended = last == 10;
        (lost, pause, failed || !whole)
    }
}

/// Where a reader stands behind what it has received.
#[verifier::ext_equal]
pub struct Reading {
    pub lines: LineView,
    /// What has been done to the parser.
    pub history: Seq<Fed>,
    /// Whether the parser is paused.
    pub paused: bool,
    /// Whether the parser has stopped behind a request that asks for another protocol.
    pub switched: bool,
    /// How many bytes the parser has taken.
    pub taken: nat,
    /// Whether the stream has ended or failed.
    pub closed: bool,
}

impl Reading {
    /// The line is given to the parser.
    pub open spec fn line(self, line: Seq<u8>) -> Self {
        let free = self.lines.progress.bufs.len() as usize;
        let done = given(self.history, self.paused, Some(free), line);
        Reading {
            lines: self.lines.line(line, found(done), has_failed(done)),
            history: done,
            paused: found(done).paused,
            switched: upgrades(done) && ends_complete(found(done).events),
            taken: self.taken + found(done).nparsed,
            ..self
        }
    }

    /// What has been received is given to the parser, line by line.
    pub open spec fn portion(self, data: Seq<u8>) -> Self
        decreases data.len(),
    {
        let n = first_line(data) as int;
        if data.len() == 0 || self.lines.done() || self.switched || n == 0 || n > data.len() {
            self
        } else {
            self.line(data.take(n)).portion(data.skip(n))
        }
    }

    /// What the connection does next: `len` is how many bytes there were to parse.
    pub open spec fn next(self, len: nat) -> Parsed {
        if self.closed {
            Parsed::Close
        } else if self.lines.progress.handler.refusal is Some {
            Parsed::Refuse
        } else if self.lines.progress.lost {
            Parsed::Close
        } else if self.lines.progress.bufs.len() == 0 {
            Parsed::Pause
        } else if self.lines.failed || self.taken != len {
            Parsed::Close
        } else {
            Parsed::Receive
        }
    }
}

/// The reader of a connection.
#[derive(Debug)]
pub struct Reader {
    /// Read buffer for status line, headers and body.
    ///
    /// A request line cannot exceed the size of the buffer, or the 414 (URI Too Long)
    /// error is returned to the client.
    /// A request header field cannot exceed the size of the buffer as well, or the 400 error
    /// is returned to the client.
    /// If after the end of request processing a connection is transitioned into the
    /// keep-alive state, this buffer is not released.
    pub buf: Vec<u8>,
    /// Where reading is continued: behind what has been received and not parsed yet.
    pub position: usize,
    pub lines: LineCounter,
    pub parser: RequestParser,
}

impl Reader {
    /// The buffer has its size, and the position lies in it.
    pub open spec fn wf(self) -> bool {
        &&& self.buf@.len() == READ_BUFFER_SIZE
        &&& self.position <= READ_BUFFER_SIZE
        &&& self.lines.wf()
    }

    /// What has been received and not parsed yet.
    pub open spec fn pending(self) -> Seq<u8> {
        self.buf@.take(self.position as int)
    }

    /// Nothing has been received.
    pub open spec fn is_new(self) -> bool {
        &&& self.wf()
        &&& self.buf@ == Seq::new(READ_BUFFER_SIZE as nat, |i: int| 0u8)
        &&& self.pending() == Seq::<u8>::empty()
        &&& self.lines == (LineCounter { line: 0, ended: true })
        &&& self.parser.history() == Seq::<Fed>::empty()
        &&& !self.parser.paused()
    }

    /// What there is to parse once a receive has ended in `nread`.
    pub open spec fn data(self, nread: Result<usize, IoError>) -> Seq<u8> {
        match nread {
            Ok(n) => self.buf@.take(self.position + n),
            Err(_) => self.pending(),
        }
    }

    /// Where the reader stands once a receive has ended in `nread`.
    pub open spec fn received(
        self,
        nread: Result<usize, IoError>,
        handler: HandlerView,
        bufs: Seq<Seq<u8>>,
    ) -> Reading {
        let start = Reading {
            lines: LineView {
                progress: Progress::start(handler, bufs, Seq::empty()),
                line: self.lines.line as nat,
                ended: self.lines.ended,
                failed: false,
            },
            history: self.parser.history(),
            paused: self.parser.paused(),
            switched: false,
            taken: 0,
            closed: false,
        };
        match nread {
            Ok(n) => if n == 0 {
                Reading { closed: true, ..start }
            } else {
                start.portion(self.data(nread))
            },
            Err(_) => Reading { closed: true, ..start },
        }
    }

    /// Whether the reader stands at `read`, of which `data` was what there was to parse.
    pub open spec fn holds(self, read: Reading, data: Seq<u8>) -> bool {
        &&& self.pending() == data.skip(read.taken as int)
        &&& self.lines.line == read.lines.line
        &&& self.lines.ended == read.lines.ended
        &&& self.parser.history() == read.history
        &&& self.parser.paused() == read.paused
    }

    /// Nothing has been received.
    pub fn new() -> (r: Self)
        ensures
            r.is_new(),
    {
        let r = Reader {
            buf: vec![0u8; READ_BUFFER_SIZE],
            position: 0,
            lines: LineCounter::new(),
            parser: RequestParser::new(),
        };
        assert(r.buf@ =~= Seq::new(READ_BUFFER_SIZE as nat, |i: int| 0u8));
        assert(r.pending() =~= Seq::empty());
        r
    }

    /// The part of the buffer that the next receive fills.
    pub fn room(&mut self) -> (r: &mut [u8])
        requires
            old(self).wf(),
        ensures
            r@ == old(self).buf@.skip(old(self).position as int),
            final(r)@.len() == r@.len() ==> final(self).wf(),
            final(self).position == old(self).position,
            final(self).buf@ == old(self).pending() + final(r)@,
            final(self).lines == old(self).lines,
            final(self).parser == old(self).parser,
    {
        let position = self.position;
        let (front, back) = self.buf.as_mut_slice().split_at_mut(position);
        back
    }

    /// Moves what the parser has not taken of the first `len` bytes to the front.
    fn keep(&mut self, nparsed: usize, len: usize)
        requires
            old(self).wf(),
            nparsed <= len <= READ_BUFFER_SIZE,
        ensures
            final(self).wf(),
            final(self).pending() == old(self).buf@.subrange(nparsed as int, len as int),
            final(self).lines == old(self).lines,
            final(self).parser == old(self).parser,
    {
        let left: usize = len - nparsed;
        let mut i: usize = 0;
        while i < left
            invariant
                i <= left,
                left == len - nparsed,
                len <= READ_BUFFER_SIZE,
                self.lines == old(self).lines,
                self.parser == old(self).parser,
                self.buf@.len() == READ_BUFFER_SIZE,
                old(self).buf@.len() == READ_BUFFER_SIZE,
                forall|j: int| 0 <= j < i ==> self.buf@[j] == old(self).buf@[nparsed + j],
                forall|j: int| i <= j < READ_BUFFER_SIZE ==> self.buf@[j] == old(self).buf@[j],
            decreases left - i,
        {
            let byte: u8 = self.buf[nparsed + i];
            self.buf[i] = byte;
            i = i + 1;
        }
        self.position = left;
        assert(self.pending() =~= old(self).buf@.subrange(nparsed as int, len as int));
    }

    /// A receive into the buffer has ended in `nread`: what has been received is parsed line
    /// by line, behind what was left over. What the parser has not taken stays.
    pub fn on_recv<R>(
        self,
        nread: Result<usize, IoError>,
        handler: &mut Handler,
        state: &mut ConnectionState<R>,
    ) -> (r: (Self, Outcome))
        requires
            self.wf(),
            nread matches Ok(n) ==> self.position + n <= READ_BUFFER_SIZE,
            old(handler).count + READ_BUFFER_SIZE * (old(state).bufs@.len() + 1) <= usize::MAX,
        ensures
            r.0.wf(),
            final(state).rd == old(state).rd,
            ({
                let read = self.received(nread, old(handler)@, contents(old(state).bufs@));
                &&& r.0.holds(read, self.data(nread))
                &&& final(handler)@ == read.lines.progress.handler
                &&& contents(final(state).bufs@) == read.lines.progress.bufs
                &&& pending_views(r.1.requests@) == read.lines.progress.requests
                &&& r.1.next == read.next(self.data(nread).len())
                &&& !read.closed && !read.lines.progress.stopped() ==> r.0.parser.paused()
                    == read.lines.progress.paused
            }),
    {
        let n = match nread {
            Ok(n) => n,
            Err(_) => 0,
        };
        let ghost all = self.data(nread);
        let ghost whole = self.buf@;
        let mut requests: Vec<(Request, Response)> = Vec::new();
        assert(pending_views(requests@) =~= Seq::empty());
        if n == 0 {
            assert(all.skip(0) =~= self.pending());
            return (self, Outcome { requests, next: Parsed::Close });
        }
        let ghost start = Reading {
            lines: LineView {
                progress: Progress::start(handler@, contents(state.bufs@), Seq::empty()),
                line: self.lines.line as nat,
                ended: self.lines.ended,
                failed: false,
            },
            history: self.parser.history(),
            paused: self.parser.paused(),
            switched: false,
            taken: 0,
            closed: false,
        };
        let ghost most = state.bufs@.len() + 1;
        let len: usize = self.position + n;
        let Reader { buf, position, mut lines, mut parser } = self;
        let data = vstd::slice::slice_subrange(buf.as_slice(), 0, len);
        assert(data@ =~= all);
        let mut lost = false;
        let mut pause = false;
        let mut failed = false;
        let mut switched = false;
        let mut taken: usize = 0;
        let mut offset: usize = 0;
        let mut more = handler.refusal.is_none();
        assert(all.skip(0) =~= all);
        assert((len - offset) * most <= READ_BUFFER_SIZE * most) by (nonlinear_arith)
            requires
                offset == 0,
                len <= READ_BUFFER_SIZE,
                most >= 1,
        ;
        while more && offset < len
            invariant
                offset <= len <= READ_BUFFER_SIZE,
                data@ == all,
                all.len() == len,
                taken <= offset,
                more ==> taken == offset,
                lines.wf(),
                state.rd == old(state).rd,
                state.bufs@.len() + 1 <= most,
                handler.count + (len - offset) * most <= usize::MAX,
                start.portion(all) == (Reading {
                    lines: LineView {
                        progress: Progress {
                            handler: handler@,
                            bufs: contents(state.bufs@),
                            requests: pending_views(requests@),
                            lost,
                            paused: pause,
                        },
                        line: lines.line as nat,
                        ended: lines.ended,
                        failed,
                    },
                    history: parser.history(),
                    paused: parser.paused(),
                    switched,
                    taken: taken as nat,
                    closed: false,
                }).portion(all.skip(offset as int)),
                more == (!lost && !pause && !failed && !switched && handler.refusal is None),
                len > 0,
                offset == 0 ==> more == (handler.refusal is None),
                offset > 0 && !lost && handler.refusal is None ==> parser.paused() == pause,
            decreases len - offset,
        {
            let ghost rest = all.skip(offset as int);
            let ghost before = Progress::start(
                handler@,
                contents(state.bufs@),
                pending_views(requests@),
            );
            let end = line_from(data, offset);
            let line = vstd::slice::slice_subrange(data, offset, end);
            assert(line@ =~= rest.take(first_line(rest) as int));
            assert(rest.skip(first_line(rest) as int) =~= all.skip(end as int));
            let free: usize = state.bufs.len();
            let (next, parse) = parser.parse(Some(free), line);
            parser = next;
            let error = parser.has_error();
            proof {
                lemma_events_bound(before, parse@.events);
                if !before.events(parse@.events).stopped() {
                    law_paused_when_no_buffer_is_free(
                        handler@,
                        contents(state.bufs@),
                        pending_views(requests@),
                        parse@.events,
                    );
                }
                let count = handler.count;
                assert(count + most + (len - end) * most <= count + (len - offset) * most)
                    by (nonlinear_arith)
                    requires
                        end >= offset + 1,
                        most >= 1,
                ;
                assert((len - end) * most >= 0) by (nonlinear_arith)
                    requires
                        len >= end,
                        most >= 1,
                ;
            }
            let out = lines.on_line(line, &parse, error, handler, state, &mut requests);
            lost = out.0;
            pause = out.1;
            failed = out.2;
            switched = parser.has_switched(&parse);
            taken = taken + parse.nparsed;
            offset = end;
            more = !lost && !pause && !failed && !switched && handler.refusal.is_none();
        }
        let mut reader = Reader { buf, position, lines, parser };
        reader.keep(taken, len);
        assert(reader.pending() =~= all.skip(taken as int));
        let next = if handler.refusal.is_some() {
            Parsed::Refuse
        } else if lost {
            Parsed::Close
        } else if state.bufs.len() == 0 {
            Parsed::Pause
        } else if failed || taken != len {
            Parsed::Close
        } else {
            Parsed::Receive
        };
        (reader, Outcome { requests, next })
    }
}

/// Working off events counts no more requests than they complete, and frees no buffer.
proof fn lemma_events_bound(p: Progress, events: Seq<EventView>)
    ensures
        p.events(events).handler.count <= p.handler.count + completes(events),
        p.events(events).bufs.len() <= p.bufs.len(),
    decreases events.len(),
{
    if events.len() > 0 {
        lemma_events_bound(p, events.drop_last());
    }
}

/// As long as nothing stops a connection, what makes the recorder pause the parser is exactly
/// that a request is complete while no response buffer is free: the recorder counts the free
/// buffers right, and none is free once it has paused.
pub proof fn law_paused_when_no_buffer_is_free(
    handler: HandlerView,
    bufs: Seq<Seq<u8>>,
    requests: Seq<PendingView>,
    events: Seq<EventView>,
)
    requires
        bufs.len() <= usize::MAX,
        !Progress::start(handler, bufs, requests).events(events).stopped(),
    ensures
        ({
            let p = Progress::start(handler, bufs, requests).events(events);
            &&& p.paused == pauses(Some(bufs.len() as usize), events)
            &&& p.bufs.len() == remaining(bufs.len(), events)
            &&& p.paused ==> p.bufs.len() == 0
        }),
    decreases events.len(),
{
    if events.len() > 0 {
        law_paused_when_no_buffer_is_free(handler, bufs, requests, events.drop_last());
    }
}

/// A request line or a header field is refused exactly when it is longer, as it was received
/// and without its end, than the read buffer: a request line with 414, a header field with 400.
/// One that fits is counted on. The bytes of a body, which may end on the same line, do not
/// count.
pub proof fn law_long_line_is_refused(
    v: LineView,
    line: Seq<u8>,
    parse: ParseView,
    failed: bool,
)
    requires
        line.len() > 0,
        line != seq![10u8],
        parse.nparsed == line.len(),
        !v.progress.events(parse.events).stopped(),
        v.progress.events(parse.events).handler.head,
    ensures
        ({
            let h = v.progress.events(parse.events).handler;
            let after = v.line(line, parse, failed);
            let size = v.counted(line, parse.events) - line_end(line);
            &&& after.progress.handler.refusal == (if size > READ_BUFFER_SIZE {
                Some(
                    if h.request_line {
                        Refusal::UriTooLong
                    } else {
                        Refusal::BadRequest
                    },
                )
            } else {
                None
            })
            &&& size <= READ_BUFFER_SIZE ==> after.line == v.counted(line, parse.events)
        }),
{
}

/// A request whose line or header field goes on without an end is answered as soon as it is
/// longer than the read buffer: with 414 if it is the request line, with 400 if it is a header
/// field.
pub proof fn law_endless_line_is_refused(r: Reading, data: Seq<u8>)
    requires
        data.len() > 0,
        first_line(data) == data.len(),
        data.last() != 10,
        data.last() != 13,
        !r.closed,
        !r.lines.done(),
        !r.switched,
        ({
            let free = r.lines.progress.bufs.len() as usize;
            let parse = found(given(r.history, r.paused, Some(free), data));
            let p = r.lines.progress.events(parse.events);
            &&& parse.nparsed == data.len()
            &&& body_len(parse.events) == 0
            &&& !p.stopped()
            &&& p.handler.head
        }),
        r.lines.begun(data) + data.len() > READ_BUFFER_SIZE,
    ensures
        ({
            let free = r.lines.progress.bufs.len() as usize;
            let parse = found(given(r.history, r.paused, Some(free), data));
            let h = r.lines.progress.events(parse.events).handler;
            let after = r.portion(data);
            &&& after.next(data.len()) == Parsed::Refuse
            &&& after.lines.progress.handler.refusal == Some(
                if h.request_line {
                    Refusal::UriTooLong
                } else {
                    Refusal::BadRequest
                },
            )
        }),
{
    assert(data.take(data.len() as int) =~= data);
    assert(data.skip(data.len() as int) =~= Seq::empty());
    assert(data != seq![10u8]) by {
        assert(seq![10u8].last() == 10);
    }
    let after = r.line(data);
    assert(after.portion(Seq::empty()) == after);
}

/// What was left over by the parser is parsed before what is received next.
pub proof fn law_leftover_is_parsed_first(before: Reader, after: Reader, filled: Seq<u8>, n: usize)
    requires
        before.wf(),
        after.position == before.position,
        after.buf@ == before.pending() + filled,
        n <= filled.len(),
    ensures
        after.data(Ok(n)) == before.pending() + filled.take(n as int),
{
    assert(after.data(Ok(n)) =~= before.pending() + filled.take(n as int));
}

/// Nothing behind a request that asks for another protocol is parsed: with more than that
/// received, the connection is dropped, unless it waits for a response buffer.
pub proof fn law_nothing_is_parsed_after_a_switch(r: Reading, data: Seq<u8>, len: nat)
    requires
        r.switched,
    ensures
        r.portion(data) == r,
        !r.closed && !r.lines.progress.stopped() && r.lines.progress.bufs.len() > 0 && r.taken
            < len ==> r.next(len) == Parsed::Close,
{
}

/// Events can be worked off in any portions: how the stream was cut into receives does not
/// matter.
pub proof fn law_portions_add_up(p: Progress, a: Seq<EventView>, b: Seq<EventView>)
    ensures
        p.events(a + b) == p.events(a).events(b),
    decreases b.len(),
{
    if b.len() == 0 {
        assert(a + b =~= a);
    } else {
        assert((a + b).drop_last() =~= a + b.drop_last());
        assert((a + b).last() == b.last());
        law_portions_add_up(p, a, b.drop_last());
    }
}

/// Once a request has been refused nothing more is handed on, whatever else was found.
pub proof fn law_nothing_follows_a_refusal(p: Progress, events: Seq<EventView>)
    requires
        p.handler.refusal is Some,
    ensures
        p.events(events) == p,
    decreases events.len(),
{
    if events.len() > 0 {
        law_nothing_follows_a_refusal(p, events.drop_last());
    }
}

/// How many response buffers are free, in use by the current request, or handed on.
pub open spec fn buffers(p: Progress) -> nat {
    p.bufs.len() + p.requests.len() + if p.handler.buf is Some {
        1nat
    } else {
        0nat
    }
}

/// Whether no buffer that is free or handed on holds anything yet.
pub open spec fn all_empty(p: Progress) -> bool {
    &&& forall|i: int| 0 <= i < p.bufs.len() ==> #[trigger] p.bufs[i].len() == 0
    &&& forall|i: int| 0 <= i < p.requests.len() ==> #[trigger] p.requests[i].buf.len() == 0
    &&& p.handler.buf matches Some(buf) ==> buf.len() == 0
}

/// Whatever the parser finds, no response buffer is used twice, and every response starts with
/// an empty one.
pub proof fn law_buffers_are_not_shared(p: Progress, events: Seq<EventView>)
    requires
        all_empty(p),
    ensures
        all_empty(p.events(events)),
        buffers(p.events(events)) <= buffers(p),
    decreases events.len(),
{
    if events.len() > 0 {
        law_buffers_are_not_shared(p, events.drop_last());
    }
}

/// As long as nothing stops a connection, its count is the number of requests that have been
/// completed on it.
pub proof fn law_count_is_of_completed_requests(p: Progress, events: Seq<EventView>)
    requires
        !p.events(events).stopped(),
    ensures
        p.events(events).handler.count == p.handler.count + completes(events),
    decreases events.len(),
{
    if events.len() > 0 {
        law_count_is_of_completed_requests(p, events.drop_last());
    }
}

/// A request that begins with a free buffer, has its target read in one part and its headers
/// completed is handed on as it is: with its target, an empty buffer, and the id of its place
/// among the requests of the connection.
pub proof fn law_request_is_handed_on(
    p: Progress,
    url: Seq<u8>,
    version: (u16, u16),
    keepalive: bool,
)
    requires
        all_empty(p),
        !p.stopped(),
        p.bufs.len() > 0,
        p.handler.request == RequestView::empty(),
    ensures
        ({
            let q = p.event(EventView::MessageBegin).event(EventView::Url(url)).event(
                EventView::HeadersComplete(version, keepalive),
            );
            &&& q.requests == p.requests.push(
                PendingView {
                    request: RequestView { url, headers: Seq::empty() },
                    id: p.handler.count % PIPELINE_NUMBER as int,
                    buf: Seq::empty(),
                    version,
                    keepalive,
                },
            )
            &&& !q.stopped()
        }),
{
    assert(p.handler.request.url + url =~= url);
    assert(p.bufs[p.bufs.len() - 1].len() == 0);
    assert(p.bufs.last() =~= Seq::empty());
    let q = p.event(EventView::MessageBegin).event(EventView::Url(url)).event(
        EventView::HeadersComplete(version, keepalive),
    );
    assert(q.requests.last().request =~= RequestView { url, headers: Seq::empty() });
}

/// What is handed on is told by its fields, in order: the request, and the id, the buffer, the
/// version and the keep-alive of its response.
pub proof fn law_view_tells_what_is_handed_on(requests: Seq<(Request, Response)>, i: int)
    ensures
        pending_views(requests).len() == requests.len(),
        0 <= i < requests.len() ==> {
            let told = pending_views(requests)[i];
            &&& told.request == requests[i].0@
            &&& told.id == requests[i].1.id
            &&& told.buf == requests[i].1.buf@
            &&& told.version == requests[i].1.version
            &&& told.keepalive == requests[i].1.keepalive
        },
{
}

/// When the headers of a request are complete it is handed on behind those before it, with all of
/// its target, its own buffer, the version and the keep-alive that the parser told, and the id of
/// its place among the requests of the connection, whatever the handler has seen before.
pub proof fn law_headers_hand_the_request_on(
    p: Progress,
    version: (u16, u16),
    keepalive: bool,
    i: int,
)
    requires
        !p.lost,
        p.handler.refusal is None,
        p.handler.buf is Some,
    ensures
        ({
            let q = p.event(EventView::HeadersComplete(version, keepalive));
            let told = q.requests.last();
            &&& q.requests.len() == p.requests.len() + 1
            &&& 0 <= i < p.requests.len() ==> q.requests[i] == p.requests[i]
            &&& told.version == version
            &&& told.keepalive == keepalive
            &&& told.request == p.handler.request
            &&& told.buf == p.handler.buf->0
            &&& told.id == p.handler.count % 64
            &&& q.handler.request == RequestView::empty()
            &&& q.handler.buf is None
            &&& q.handler.count == p.handler.count
            &&& !q.handler.head
            &&& q.handler.request_line == p.handler.request_line
            &&& q.handler.refusal is None
            &&& q.bufs == p.bufs
            &&& !q.lost
            &&& q.paused == p.paused
        }),
{
}

/// Headers of a request that has no buffer stop the connection, and nothing else changes.
pub proof fn law_headers_without_a_buffer_are_lost(
    p: Progress,
    version: (u16, u16),
    keepalive: bool,
)
    requires
        p.handler.buf is None,
    ensures
        p.event(EventView::HeadersComplete(version, keepalive)).requests == p.requests,
        p.event(EventView::HeadersComplete(version, keepalive)).handler == p.handler,
        p.event(EventView::HeadersComplete(version, keepalive)).bufs == p.bufs,
        p.event(EventView::HeadersComplete(version, keepalive)).paused == p.paused,
        !p.stopped() ==> p.event(EventView::HeadersComplete(version, keepalive)).lost,
{
}

/// A request that begins takes the last free buffer, if there is one, and leaves the others. What
/// has been handed on stays.
pub proof fn law_beginning_takes_a_buffer(p: Progress)
    requires
        !p.lost,
        p.handler.refusal is None,
    ensures
        ({
            let q = p.event(EventView::MessageBegin);
            &&& p.bufs.len() > 0 ==> q.handler.buf == Some(p.bufs.last()) && q.bufs.push(
                p.bufs.last(),
            ) == p.bufs
            &&& p.bufs.len() == 0 ==> q.handler.buf is None && q.bufs.len() == 0
            &&& q.handler.head
            &&& q.handler.request_line
            &&& q.handler.request == p.handler.request
            &&& q.handler.count == p.handler.count
            &&& q.handler.refusal is None
            &&& q.requests == p.requests
            &&& !q.lost
            &&& q.paused == p.paused
        }),
{
    if p.bufs.len() > 0 {
        assert(p.bufs.drop_last().push(p.bufs.last()) =~= p.bufs);
    }
}

/// The parts of a target are put together, and the names, the values and the bodies are passed
/// over: none of them changes the buffers, what has been handed on, or the count.
pub proof fn law_other_events_hand_nothing_on(
    p: Progress,
    part: Seq<u8>,
    len: nat,
)
    requires
        !p.lost,
        p.handler.refusal is None,
    ensures
        ({
            let q = p.event(EventView::Url(part));
            &&& q.handler.request.url == p.handler.request.url + part
            &&& q.handler == (HandlerView { request: q.handler.request, ..p.handler })
            &&& q.handler.request.headers == p.handler.request.headers
            &&& q == (Progress { handler: q.handler, ..p })
        }),
        ({
            let q = p.event(EventView::HeaderField(part));
            &&& q.handler == (HandlerView { head: true, ..p.handler })
            &&& q == (Progress { handler: q.handler, ..p })
        }),
        p.event(EventView::HeaderValue(part)) == p,
        p.event(EventView::Body(len)) == p,
{
}

/// A request that has been read to its end counts, and pauses the connection if no buffer is free.
/// Nothing is handed on by it and no buffer is taken.
pub proof fn law_completion_counts_and_pauses(p: Progress)
    requires
        !p.lost,
        p.handler.refusal is None,
    ensures
        ({
            let q = p.event(EventView::MessageComplete);
            &&& q.handler == (HandlerView {
                count: p.handler.count + 1,
                head: false,
                ..p.handler
            })
            &&& q.bufs == p.bufs
            &&& q.requests == p.requests
            &&& !q.lost
            &&& q.paused <==> p.paused || p.bufs.len() == 0
        }),
{
}

/// Events are worked off one after the other, from the start on which nothing has been found, and
/// not at all once the connection will be dropped.
pub proof fn law_events_are_worked_off_in_order(
    p: Progress,
    events: Seq<EventView>,
    e: EventView,
)
    ensures
        p.events(Seq::empty()) == p,
        p.events(events.push(e)) == p.events(events).event(e),
        p.lost || p.handler.refusal is Some ==> p.event(e) == p,
        p.stopped() <==> p.lost || p.handler.refusal is Some,
        Progress::start(p.handler, p.bufs, p.requests) == (Progress {
            lost: false,
            paused: false,
            ..p
        }),
{
    assert(events.push(e).drop_last() =~= events);
}

/// Whether some events are names and values of header fields only.
pub open spec fn fields_only(events: Seq<EventView>) -> bool {
    forall|i: int|
        0 <= i < events.len() ==> (#[trigger] events[i] is HeaderField || events[i] is HeaderValue)
}

proof fn lemma_fields_only(p: Progress, events: Seq<EventView>)
    requires
        !p.stopped(),
        fields_only(events),
    ensures
        ({
            let q = p.events(events);
            &&& q.handler == (HandlerView { head: q.handler.head, ..p.handler })
            &&& q == (Progress { handler: q.handler, ..p })
        }),
    decreases events.len(),
{
    if events.len() > 0 {
        assert(fields_only(events.drop_last())) by {
            assert forall|i: int| 0 <= i < events.drop_last().len() implies (#[trigger]
            events.drop_last()[i] is HeaderField || events.drop_last()[i] is HeaderValue) by {
                assert(events.drop_last()[i] == events[i]);
            }
        }
        lemma_fields_only(p, events.drop_last());
        assert(events.last() == events[events.len() - 1]);
    }
}

/// A request comes through as it was sent: its target in two parts, the end of its request line,
/// any header fields, and the end of its headers, with whatever version and keep-alive the parser
/// told, hand it on with this target, this version and this keep-alive.
pub proof fn law_request_comes_through(
    p: Progress,
    first: Seq<u8>,
    second: Seq<u8>,
    fields: Seq<EventView>,
    version: (u16, u16),
    keepalive: bool,
)
    requires
        !p.lost,
        p.handler.refusal is None,
        p.bufs.len() > 0,
        p.handler.request == RequestView::empty(),
        fields_only(fields),
    ensures
        ({
            let begun = p.event(EventView::MessageBegin).event(EventView::Url(first)).event(
                EventView::Url(second),
            );
            let lined = Progress { handler: begun.handler.line_end(), ..begun };
            let q = lined.events(fields).event(EventView::HeadersComplete(version, keepalive));
            let told = q.requests.last();
            &&& q.requests.drop_last() == p.requests
            &&& told.request.url == first + second
            &&& told.request.headers.len() == 0
            &&& told.version == version
            &&& told.keepalive == keepalive
            &&& told.buf == p.bufs.last()
            &&& told.id == p.handler.count % 64
            &&& !q.lost
            &&& q.handler.refusal is None
        }),
{
    let begun = p.event(EventView::MessageBegin).event(EventView::Url(first)).event(
        EventView::Url(second),
    );
    let lined = Progress { handler: begun.handler.line_end(), ..begun };
    lemma_fields_only(lined, fields);
    let q = lined.events(fields).event(EventView::HeadersComplete(version, keepalive));
    assert(q.requests.drop_last() =~= p.requests);
    assert(Seq::<u8>::empty() + first + second =~= first + second);
}

/// The first line of what has been received reaches to its first line feed, or to its end if there
/// is none.
pub proof fn law_line_reaches_to_its_line_feed(line: Seq<u8>, rest: Seq<u8>)
    requires
        !line.contains(10u8),
    ensures
        first_line(line) == line.len(),
        first_line(line.push(10u8) + rest) == line.len() + 1,
    decreases line.len(),
{
    let all = line.push(10u8) + rest;
    if line.len() == 0 {
        assert(all[0] == 10);
    } else {
        assert(line.contains(line[0]));
        assert(all[0] == line[0]);
        let shorter = line.skip(1);
        assert forall|i: int| 0 <= i < shorter.len() implies shorter[i] != 10 by {
            assert(shorter[i] == line[i + 1]);
            assert(line.contains(line[i + 1]));
        }
        law_line_reaches_to_its_line_feed(shorter, rest);
        assert(all.skip(1) =~= shorter.push(10u8) + rest);
    }
}

/// A line ends with a line feed, which a carriage return may come before. One that comes last may
/// belong to the end, too; nothing else does.
pub proof fn law_end_of_a_line(line: Seq<u8>, byte: u8)
    ensures
        line_end(line.push(13u8).push(10u8)) == 2,
        byte != 13 ==> line_end(line.push(byte).push(10u8)) == 1,
        line_end(seq![10u8]) == 1,
        line_end(line.push(13u8)) == 1,
        byte != 10 && byte != 13 ==> line_end(line.push(byte)) == 0,
{
    assert(seq![10u8].last() == 10);
}

/// The bytes of a line count as they were received, but for those of a body. They count on from
/// what has been read of the line, or of the header field that a line goes on with which begins
/// with a blank, and anew otherwise.
pub proof fn law_bytes_of_a_line_are_counted(
    v: LineView,
    line: Seq<u8>,
    events: Seq<EventView>,
)
    requires
        line.len() > 0,
    ensures
        ({
            let bytes = if body_len(events) <= line.len() {
                line.len() - body_len(events)
            } else {
                0int
            };
            let field = v.progress.handler.head && !v.progress.handler.request_line;
            let folded = field && (line[0] == 32 || line[0] == 9);
            &&& !v.ended ==> v.counted(line, events) == v.line + bytes
            &&& v.ended && folded ==> v.counted(line, events) == v.line + bytes
            &&& v.ended && !folded ==> v.counted(line, events) == bytes
        }),
{
}

/// Behind a line stands what the parser has found in it, and nothing else is changed by its length
/// than that the request may be refused, or that its request line may be over. Only the lines of a
/// head that the parser has taken are measured.
pub proof fn law_line_is_worked_off(
    v: LineView,
    line: Seq<u8>,
    parse: ParseView,
    failed: bool,
)
    requires
        line.len() > 0,
    ensures
        ({
            let p = v.progress.events(parse.events);
            let after = v.line(line, parse, failed);
            let q = after.progress;
            let taken = parse.nparsed == line.len();
            let measured = !p.lost && p.handler.refusal is None && taken && p.handler.head;
            let counted = v.counted(line, parse.events);
            let too_long = counted - line_end(line) > 4096 && line != seq![10u8];
            &&& after.ended == (line.last() == 10)
            &&& after.failed == (failed || !taken)
            &&& q == (Progress { handler: q.handler, ..p })
            &&& q.handler == (HandlerView {
                request_line: q.handler.request_line,
                refusal: q.handler.refusal,
                ..p.handler
            })
            &&& !measured ==> q == p && after.line == 0
            &&& measured && too_long ==> {
                &&& q.handler.refusal == Some(
                    if p.handler.request_line {
                        Refusal::UriTooLong
                    } else {
                        Refusal::BadRequest
                    },
                )
                &&& after.line == 0
            }
            &&& measured && !too_long ==> {
                &&& q.handler.refusal is None
                &&& after.line == counted
                &&& line.last() == 10 ==> !q.handler.request_line
                &&& line.last() != 10 ==> q.handler.request_line == p.handler.request_line
            }
        }),
{
}

/// A line is given to the parser behind all that was given to it before, with as many requests as
/// there are free buffers; what it finds in it, and whether it fails, is worked off.
pub proof fn law_line_is_given_to_the_parser(r: Reading, line: Seq<u8>)
    requires
        r.lines.progress.bufs.len() <= usize::MAX,
    ensures
        ({
            let free = Some(r.lines.progress.bufs.len() as usize);
            let before = if r.paused {
                r.history.push(Fed::Unpause)
            } else {
                r.history
            };
            let done = before.push(Fed::Bytes(line, free));
            let after = r.line(line);
            &&& after.history == done
            &&& after.paused == found(done).paused
            &&& after.taken == r.taken + found(done).nparsed
            &&& after.closed == r.closed
            &&& after.lines == r.lines.line(line, found(done), has_failed(done))
            &&& after.switched <==> upgrades(done) && found(done).events.len() > 0 && found(
                done,
            ).events.last() is MessageComplete
        }),
{
}

/// What has been received is given to the parser line by line, each line with its line feed, until
/// nothing is left, or the connection is refused, lost, paused or failed, or another protocol
/// follows.
pub proof fn law_lines_are_given_in_order(r: Reading, line: Seq<u8>, rest: Seq<u8>)
    requires
        !line.contains(10u8),
    ensures
        r.portion(Seq::empty()) == r,
        ({
            let p = r.lines.progress;
            let over = p.lost || p.handler.refusal is Some || p.paused || r.lines.failed
                || r.switched;
            &&& over ==> r.portion(line) == r && r.portion(line.push(10u8) + rest) == r
            &&& !over ==> r.portion(line.push(10u8) + rest) == r.line(line.push(10u8)).portion(
                rest,
            )
            &&& !over && line.len() > 0 ==> r.portion(line) == r.line(line)
        }),
{
    law_line_reaches_to_its_line_feed(line, rest);
    let all = line.push(10u8) + rest;
    assert(all.take((line.len() + 1) as int) =~= line.push(10u8));
    assert(all.skip((line.len() + 1) as int) =~= rest);
    assert(line.take(line.len() as int) =~= line);
    assert(line.skip(line.len() as int) =~= Seq::empty());
    if line.len() > 0 {
        let after = r.line(line);
        assert(after.portion(Seq::empty()) == after);
    }
}

/// A connection whose stream has ended or failed is dropped. Otherwise a refused request is
/// answered, headers without a buffer have the connection dropped, and without a free buffer it
/// waits. Then it is dropped if the parser has failed or left something, and receives more if not.
pub proof fn law_what_comes_next(r: Reading, len: nat)
    ensures
        r.closed ==> r.next(len) is Close,
        ({
            let p = r.lines.progress;
            &&& !r.closed && p.handler.refusal is Some ==> r.next(len) is Refuse
            &&& !r.closed && p.handler.refusal is None && p.lost ==> r.next(len) is Close
            &&& !r.closed && !p.stopped() && p.bufs.len() == 0 ==> r.next(len) is Pause
            &&& !r.closed && !p.stopped() && p.bufs.len() > 0 && (r.lines.failed || r.taken != len)
                ==> r.next(len) is Close
            &&& !r.closed && !p.stopped() && p.bufs.len() > 0 && !r.lines.failed && r.taken == len
                ==> r.next(len) is Receive
        }),
{
}

/// A receive that brought something has all that is there parsed, from where the reader stands. One
/// that brought nothing, or failed, has nothing parsed, and closes the connection.
pub proof fn law_receive_is_parsed_or_closes(
    reader: Reader,
    n: usize,
    err: IoError,
    handler: HandlerView,
    bufs: Seq<Seq<u8>>,
)
    requires
        reader.wf(),
        reader.position + n <= 4096,
    ensures
        ({
            let start = Reading {
                lines: LineView {
                    progress: Progress {
                        handler,
                        bufs,
                        requests: Seq::empty(),
                        lost: false,
                        paused: false,
                    },
                    line: reader.lines.line as nat,
                    ended: reader.lines.ended,
                    failed: false,
                },
                history: reader.parser.history(),
                paused: reader.parser.paused(),
                switched: false,
                taken: 0,
                closed: false,
            };
            let closed = Reading { closed: true, ..start };
            &&& n > 0 ==> reader.received(Ok(n), handler, bufs) == start.portion(
                reader.buf@.take(reader.position + n),
            )
            &&& reader.received(Ok(0), handler, bufs) == closed
            &&& reader.received(Err(err), handler, bufs) == closed
        }),
        reader.data(Ok(n)) == reader.buf@.take(reader.position + n),
        reader.data(Err(err)) == reader.buf@.take(reader.position as int),
        reader.pending() == reader.buf@.take(reader.position as int),
{
}

/// After a receive a reader keeps what the parser has not taken, at the front of its buffer, and
/// goes on where the parser and the line stand.
pub proof fn law_reader_goes_on_where_it_stands(reader: Reader, read: Reading, data: Seq<u8>)
    requires
        reader.holds(read, data),
        read.taken <= data.len(),
    ensures
        reader.buf@.take(reader.position as int) == data.skip(read.taken as int),
        reader.lines.line == read.lines.line,
        reader.lines.ended == read.lines.ended,
        reader.parser.history() == read.history,
        reader.parser.paused() == read.paused,
{
}

/// A reader may be used while its buffer has its size, what it keeps lies in it, and no line is
/// longer than the buffer, not counting its end. A new one has received nothing.
pub proof fn law_reader_is_well_formed(reader: Reader)
    ensures
        reader.buf@.len() == 4096 && reader.position <= 4096 && reader.lines.line <= 4097
            ==> reader.wf(),
        reader.wf() ==> reader.buf@.len() == 4096 && reader.position <= 4096,
        reader.is_new() ==> {
            &&& reader.wf()
            &&& reader.position == 0
            &&& reader.lines.line == 0
            &&& reader.lines.ended
            &&& reader.parser.history().len() == 0
            &&& !reader.parser.paused()
            &&& forall|i: int| 0 <= i < 4096 ==> #[trigger] reader.buf@[i] == 0
        },
{
    if reader.is_new() {
        assert(reader.pending().len() == 0);
    }
}

} // verus!
