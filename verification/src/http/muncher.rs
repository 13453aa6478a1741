//! The streaming HTTP parser: what it finds in the bytes that it is given, as a list.

use http_muncher::Parser;
use http_muncher::ParserHandler;
use vstd::prelude::*;

use crate::text::push_bytes;

verus! {

/// The parser of one connection.
///
/// Declares `http_muncher::Parser`; nothing is claimed of it here.
#[verifier::external_type_specification]
#[verifier::external_body]
pub struct ExParser(Parser);

/// Something that the parser has found. Parts of one target, name or value may come apart.
#[derive(Debug)]
pub enum Event {
    /// A request begins.
    MessageBegin,
    /// A part of the target of the request line.
    Url(Vec<u8>),
    /// A part of the name of a header field.
    HeaderField(Vec<u8>),
    /// A part of the value of a header field.
    HeaderValue(Vec<u8>),
    /// The headers are complete: the version of the request, and whether the connection
    /// stays open after it.
    HeadersComplete((u16, u16), bool),
    /// So many bytes of the body.
    Body(usize),
    /// The request is complete.
    MessageComplete,
}

/// What an [`Event`] tells.
#[verifier::ext_equal]
pub enum EventView {
    MessageBegin,
    Url(Seq<u8>),
    HeaderField(Seq<u8>),
    HeaderValue(Seq<u8>),
    HeadersComplete((u16, u16), bool),
    Body(nat),
    MessageComplete,
}

impl View for Event {
    type V = EventView;

    open spec fn view(&self) -> EventView {
        match *self {
            Event::MessageBegin => EventView::MessageBegin,
            Event::Url(part) => EventView::Url(part@),
            Event::HeaderField(part) => EventView::HeaderField(part@),
            Event::HeaderValue(part) => EventView::HeaderValue(part@),
            Event::HeadersComplete(version, keepalive) => EventView::HeadersComplete(
                version,
                keepalive,
            ),
            Event::Body(len) => EventView::Body(len as nat),
            Event::MessageComplete => EventView::MessageComplete,
        }
    }
}

/// What some events tell.
pub open spec fn event_views(events: Seq<Event>) -> Seq<EventView> {
    events.map_values(|event: Event| event@)
}

/// How many requests are completed by some events.
pub open spec fn completes(events: Seq<EventView>) -> nat
    decreases events.len(),
{
    if events.len() == 0 {
        0
    } else {
        completes(events.drop_last()) + if events.last() is MessageComplete {
            1nat
        } else {
            0nat
        }
    }
}

/// How many bytes of bodies are among some events.
pub open spec fn body_len(events: Seq<EventView>) -> nat
    decreases events.len(),
{
    if events.len() == 0 {
        0
    } else {
        body_len(events.drop_last()) + match events.last() {
            EventView::Body(len) => len,
            _ => 0,
        }
    }
}

/// How many more requests can begin after some events, where `free` could before.
pub open spec fn remaining(free: nat, events: Seq<EventView>) -> nat
    decreases events.len(),
{
    if events.len() == 0 {
        free
    } else {
        let before = remaining(free, events.drop_last());
        if events.last() is MessageBegin && before > 0 {
            (before - 1) as nat
        } else {
            before
        }
    }
}

/// Whether some request is completed when none can begin any more: the parser is paused then.
pub open spec fn pauses(free: Option<usize>, events: Seq<EventView>) -> bool
    decreases events.len(),
{
    match free {
        None => false,
        Some(n) => events.len() > 0 && (pauses(free, events.drop_last()) || (
        events.last() is MessageComplete && remaining(n as nat, events.drop_last()) == 0)),
    }
}

/// Writes down what the parser finds, and pauses it once a request is complete and none can
/// begin.
#[derive(Debug)]
pub struct Recorder {
    /// How many more requests can begin; no limit where there is none.
    pub free: Option<usize>,
    pub events: Vec<Event>,
    /// Whether the parser has been paused.
    pub paused: bool,
}

impl ParserHandler for Recorder {
    fn on_message_begin(&mut self, parser: &mut Parser) -> (r: bool)
        ensures
            r,
            *final(parser) == *old(parser),
            event_views(final(self).events@) == event_views(old(self).events@).push(
                EventView::MessageBegin,
            ),
            final(self).paused == old(self).paused,
            final(self).free == (match old(self).free {
                Some(free) => Some((if free > 0 {
                    free - 1
                } else {
                    0
                }) as usize),
                None => None,
            }),
    {
        if let Some(free) = self.free {
            if free > 0 {
                self.free = Some(free - 1);
            }
        }
        self.events.push(Event::MessageBegin);
        assert(event_views(self.events@) =~= event_views(old(self).events@).push(
            EventView::MessageBegin,
        ));
        true
    }

    fn on_url(&mut self, parser: &mut Parser, url: &[u8]) -> (r: bool)
        ensures
            r,
            *final(parser) == *old(parser),
            event_views(final(self).events@) == event_views(old(self).events@).push(
                EventView::Url(url@),
            ),
            final(self).paused == old(self).paused,
            final(self).free == old(self).free,
    {
        self.events.push(Event::Url(copy(url)));
        assert(event_views(self.events@) =~= event_views(old(self).events@).push(
            EventView::Url(url@),
        ));
        true
    }

    fn on_header_field(&mut self, parser: &mut Parser, name: &[u8]) -> (r: bool)
        ensures
            r,
            *final(parser) == *old(parser),
            event_views(final(self).events@) == event_views(old(self).events@).push(
                EventView::HeaderField(name@),
            ),
            final(self).paused == old(self).paused,
            final(self).free == old(self).free,
    {
        self.events.push(Event::HeaderField(copy(name)));
        assert(event_views(self.events@) =~= event_views(old(self).events@).push(
            EventView::HeaderField(name@),
        ));
        true
    }

    fn on_header_value(&mut self, parser: &mut Parser, value: &[u8]) -> (r: bool)
        ensures
            r,
            *final(parser) == *old(parser),
            event_views(final(self).events@) == event_views(old(self).events@).push(
                EventView::HeaderValue(value@),
            ),
            final(self).paused == old(self).paused,
            final(self).free == old(self).free,
    {
        self.events.push(Event::HeaderValue(copy(value)));
        assert(event_views(self.events@) =~= event_views(old(self).events@).push(
            EventView::HeaderValue(value@),
        ));
        true
    }

    fn on_headers_complete(&mut self, parser: &mut Parser) -> (r: bool)
        ensures
            r,
            *final(parser) == *old(parser),
            event_views(final(self).events@) == event_views(old(self).events@).push(
                EventView::HeadersComplete(version_of(*old(parser)), keeps_open(*old(parser))),
            ),
            final(self).paused == old(self).paused,
            final(self).free == old(self).free,
    {
        let version = muncher_http_version(parser);
        let keepalive = muncher_should_keep_alive(parser);
        self.events.push(Event::HeadersComplete(version, keepalive));
        assert(event_views(self.events@) =~= event_views(old(self).events@).push(
            EventView::HeadersComplete(version, keepalive),
        ));
        true
    }

    fn on_body(&mut self, parser: &mut Parser, body: &[u8]) -> (r: bool)
        ensures
            r,
            *final(parser) == *old(parser),
            event_views(final(self).events@) == event_views(old(self).events@).push(
                EventView::Body(body@.len()),
            ),
            final(self).paused == old(self).paused,
            final(self).free == old(self).free,
    {
        self.events.push(Event::Body(body.len()));
        assert(event_views(self.events@) =~= event_views(old(self).events@).push(
            EventView::Body(body@.len()),
        ));
        true
    }

    fn on_message_complete(&mut self, parser: &mut Parser) -> (r: bool)
        requires
            !broken(*old(parser)),
        ensures
            r,
            old(self).free == Some(0usize) ==> halted(*final(parser)),
            old(self).free != Some(0usize) ==> *final(parser) == *old(parser),
            event_views(final(self).events@) == event_views(old(self).events@).push(
                EventView::MessageComplete,
            ),
            final(self).paused == (old(self).paused || old(self).free == Some(0usize)),
            final(self).free == old(self).free,
    {
        self.events.push(Event::MessageComplete);
        assert(event_views(self.events@) =~= event_views(old(self).events@).push(
            EventView::MessageComplete,
        ));
        if let Some(free) = self.free {
            if free == 0 {
                self.paused = true;
                muncher_pause(parser);
            }
        }
        true
    }
}

/// The bytes of a slice.
fn copy(bytes: &[u8]) -> (r: Vec<u8>)
    ensures
        r@ == bytes@,
{
    let mut r: Vec<u8> = Vec::new();
    push_bytes(&mut r, bytes);
    assert(r@ =~= bytes@);
    r
}

/// The version of the request that a parser is at: what `http_muncher::Parser::http_version`
/// returns.
pub uninterp spec fn version_of(parser: Parser) -> (u16, u16);

/// Calls `http_muncher::Parser::http_version`.
///
/// Claimed of it: the version depends on the parser alone.
#[verifier::external_body]
fn muncher_http_version(parser: &Parser) -> (r: (u16, u16))
    ensures
        r == version_of(*parser),
{
    parser.http_version()
}

/// Whether the connection stays open after the request that a parser is at: what
/// `http_muncher::Parser::should_keep_alive` returns.
pub uninterp spec fn keeps_open(parser: Parser) -> bool;

/// Calls `http_muncher::Parser::should_keep_alive`.
///
/// Claimed of it: the answer depends on the parser alone.
#[verifier::external_body]
fn muncher_should_keep_alive(parser: &Parser) -> (r: bool)
    ensures
        r == keeps_open(*parser),
{
    parser.should_keep_alive()
}

/// Whether a parser has met an error other than a pause. Such a parser must not be paused.
pub uninterp spec fn broken(parser: Parser) -> bool;

/// Whether a parser has been told to pause.
pub uninterp spec fn halted(parser: Parser) -> bool;

/// Calls `http_muncher::Parser::pause`, which aborts on a parser that has met an error.
///
/// Claimed of it: the parser has been told to pause.
#[verifier::external_body]
fn muncher_pause(parser: &mut Parser)
    requires
        !broken(*old(parser)),
    ensures
        halted(*final(parser)),
{
    parser.pause();
}

/// Something that has been done to a parser.
#[verifier::ext_equal]
pub enum Fed {
    /// It has been given these bytes, to find so many more requests at most.
    Bytes(Seq<u8>, Option<usize>),
    /// Its pause has been ended.
    Unpause,
}

/// What has been done to a parser since it was made, in order.
pub uninterp spec fn fed(parser: Parser) -> Seq<Fed>;

/// Calls `http_muncher::Parser::request`.
///
/// Claimed of it: nothing has been done yet to the parser that it makes, which has met no
/// error.
#[verifier::external_body]
fn muncher_request() -> (r: Parser)
    ensures
        fed(r) == Seq::<Fed>::empty(),
        !broken(r),
{
    Parser::request()
}

/// Whether a parser to which this has been done has met an error:
/// what `http_muncher::Parser::has_error` returns.
pub uninterp spec fn has_failed(history: Seq<Fed>) -> bool;

/// Calls `http_muncher::Parser::has_error`.
///
/// Claimed of it: the answer depends on what has been done to the parser alone.
#[verifier::external_body]
fn muncher_has_error(parser: &Parser) -> (r: bool)
    ensures
        r == has_failed(fed(*parser)),
{
    parser.has_error()
}

/// Whether the last request whose headers have been read, by a parser to which this has been
/// done, asks for another protocol: what `http_muncher::Parser::is_upgrade` returns.
pub uninterp spec fn upgrades(history: Seq<Fed>) -> bool;

/// Calls `http_muncher::Parser::is_upgrade`.
///
/// Claimed of it: the answer depends on what has been done to the parser alone.
#[verifier::external_body]
fn muncher_is_upgrade(parser: &Parser) -> (r: bool)
    ensures
        r == upgrades(fed(*parser)),
{
    parser.is_upgrade()
}

/// Whether the last of some events is that a request is complete.
pub open spec fn ends_complete(events: Seq<EventView>) -> bool {
    events.len() > 0 && events.last() is MessageComplete
}

/// What has come of giving some bytes to the parser.
#[derive(Debug)]
pub struct Parse {
    /// How many of the bytes the parser has taken.
    pub nparsed: usize,
    /// What it has found in them, in order.
    pub events: Vec<Event>,
    /// Whether it has been paused.
    pub paused: bool,
}

/// What a [`Parse`] tells.
#[verifier::ext_equal]
pub struct ParseView {
    pub nparsed: nat,
    pub events: Seq<EventView>,
    pub paused: bool,
}

impl View for Parse {
    type V = ParseView;

    open spec fn view(&self) -> ParseView {
        ParseView {
            nparsed: self.nparsed as nat,
            events: event_views(self.events@),
            paused: self.paused,
        }
    }
}

/// What a parser to which this has been done made of the bytes that it was given last: what
/// `http_muncher::Parser::parse` returned and called its recorder with.
pub uninterp spec fn found(history: Seq<Fed>) -> ParseView;

/// Calls `http_muncher::Parser::parse` on `data` with a recorder by which `free` more requests
/// can begin.
///
/// Claimed of it: what it takes of the bytes, and what it calls the recorder with, depends on
/// what has been done to the parser alone. It takes at most the bytes that it is given. It
/// calls the recorder only on a parser that has met no error. The recorder pauses it when a
/// request is completed and none can begin; once it has been paused it calls nothing more, so
/// that at most one request more than `free` is completed. It is not given an empty slice,
/// which would tell it that the stream has ended.
#[verifier::external_body]
fn muncher_parse(parser: &mut Parser, free: Option<usize>, data: &[u8]) -> (r: Parse)
    requires
        data@.len() > 0,
    ensures
        fed(*final(parser)) == fed(*old(parser)).push(Fed::Bytes(data@, free)),
        r@ == found(fed(*final(parser))),
        r.nparsed <= data@.len(),
        r.paused == pauses(free, r@.events),
        free matches Some(n) ==> completes(r@.events) <= n + 1,
{
    let mut recorder = Recorder { free, events: Vec::new(), paused: false };
    let nparsed = parser.parse(&mut recorder, data);
    Parse { nparsed, events: recorder.events, paused: recorder.paused }
}

/// Whether the last thing that has been done to a parser was a parse that ended in a pause.
pub open spec fn is_paused(history: Seq<Fed>) -> bool {
    &&& history.len() > 0
    &&& history.last() is Bytes
    &&& found(history).paused
}

/// Calls `http_muncher::Parser::unpause`, which a parser that has met an error must be spared.
///
/// Claimed of it: it is one more thing that has been done to the parser.
#[verifier::external_body]
fn muncher_unpause(parser: &mut Parser)
    requires
        is_paused(fed(*old(parser))),
    ensures
        fed(*final(parser)) == fed(*old(parser)).push(Fed::Unpause),
{
    parser.unpause();
}

/// What will have been done to a parser once it has been given `data`, to find `free` more
/// requests at most: a pause is ended before.
pub open spec fn given(
    history: Seq<Fed>,
    paused: bool,
    free: Option<usize>,
    data: Seq<u8>,
) -> Seq<Fed> {
    let before = if paused {
        history.push(Fed::Unpause)
    } else {
        history
    };
    before.push(Fed::Bytes(data, free))
}

/// The parser of the requests of one connection.
#[derive(Debug)]
pub struct RequestParser {
    parser: Parser,
    /// Whether the parser is paused.
    paused: bool,
}

impl RequestParser {
    #[verifier::type_invariant]
    spec fn wf(self) -> bool {
        self.paused ==> is_paused(fed(self.parser))
    }

    /// What has been done to the parser.
    pub closed spec fn history(self) -> Seq<Fed> {
        fed(self.parser)
    }

    /// Whether the parser is paused.
    pub closed spec fn paused(self) -> bool {
        self.paused
    }

    /// What will have been done to the parser once it has been given `data`.
    pub open spec fn given(self, free: Option<usize>, data: Seq<u8>) -> Seq<Fed> {
        given(self.history(), self.paused(), free, data)
    }

    /// A parser that has not been given anything.
    pub fn new() -> (r: Self)
        ensures
            r.history() == Seq::<Fed>::empty(),
            !r.paused(),
    {
        RequestParser { parser: muncher_request(), paused: false }
    }

    /// Gives `data` to the parser, which is paused once a request is complete and `free` more
    /// have begun.
    pub fn parse(self, free: Option<usize>, data: &[u8]) -> (r: (Self, Parse))
        requires
            data@.len() > 0,
        ensures
            r.0.history() == self.given(free, data@),
            r.0.paused() == r.1.paused,
            r.1@ == found(self.given(free, data@)),
            r.1.nparsed <= data@.len(),
            r.1.paused == pauses(free, r.1@.events),
            free matches Some(n) ==> completes(r.1@.events) <= n + 1,
    {
        proof {
            use_type_invariant(&self);
        }
        let mut parser = self.parser;
        if self.paused {
            muncher_unpause(&mut parser);
        }
        let parse = muncher_parse(&mut parser, free, data);
        (RequestParser { parser, paused: parse.paused }, parse)
    }

    /// Whether the parser has stopped behind a request that asks for another protocol:
    /// `parse` is what came of the bytes that it was given last. What follows is not HTTP.
    pub fn has_switched(&self, parse: &Parse) -> (r: bool)
        ensures
            r == (upgrades(self.history()) && ends_complete(parse@.events)),
    {
        let len: usize = parse.events.len();
        if len == 0 {
            return false;
        }
        assert(parse@.events.last() == parse.events@[len - 1]@);
        match &parse.events[len - 1] {
            Event::MessageComplete => muncher_is_upgrade(&self.parser),
            _ => false,
        }
    }

    /// Whether the parser has met an error.
    pub fn has_error(&self) -> (r: bool)
        ensures
            r == has_failed(self.history()),
    {
        muncher_has_error(&self.parser)
    }
}

/// Events complete no fewer requests than the first of them.
pub proof fn lemma_completes_take(events: Seq<EventView>, n: int)
    requires
        0 <= n <= events.len(),
    ensures
        completes(events.take(n)) <= completes(events),
    decreases events.len(),
{
    if n == events.len() {
        assert(events.take(n) =~= events);
    } else {
        assert(events.drop_last().take(n) =~= events.take(n));
        lemma_completes_take(events.drop_last(), n);
    }
}

/// The view tells the event: what it is, and what it holds.
pub proof fn law_view_tells_the_event(e: Event)
    ensures
        e is MessageBegin <==> e@ is MessageBegin,
        e is MessageComplete <==> e@ is MessageComplete,
        e matches Event::Url(part) ==> e@ == EventView::Url(part@),
        e matches Event::HeaderField(part) ==> e@ == EventView::HeaderField(part@),
        e matches Event::HeaderValue(part) ==> e@ == EventView::HeaderValue(part@),
        e matches Event::HeadersComplete(version, keepalive) ==> e@
            == EventView::HeadersComplete(version, keepalive),
        e matches Event::Body(len) ==> e@ == EventView::Body(len as nat),
{
}

/// The view tells the parse: how much was taken, what was found, in order, and whether it ended in
/// a pause.
pub proof fn law_view_tells_the_parse(p: Parse)
    ensures
        p@.nparsed == p.nparsed,
        p@.paused == p.paused,
        p@.events.len() == p.events@.len(),
        forall|i: int| 0 <= i < p.events@.len() ==> #[trigger] p@.events[i] == p.events@[i]@,
{
}

/// Some requests are completed exactly if some event is that one is. Each such event counts once,
/// and no other does.
pub proof fn law_completed_requests_are_counted(events: Seq<EventView>)
    ensures
        completes(events) > 0 <==> exists|i: int|
            0 <= i < events.len() && #[trigger] events[i] is MessageComplete,
        forall|e: EventView|
            #[trigger] completes(events.push(e)) == completes(events) + if e is MessageComplete {
                1nat
            } else {
                0nat
            },
    decreases events.len(),
{
    assert forall|e: EventView| #[trigger]
        completes(events.push(e)) == completes(events) + if e is MessageComplete {
            1nat
        } else {
            0nat
        } by {
        assert(events.push(e).drop_last() =~= events);
    }
    if events.len() > 0 {
        let front = events.drop_last();
        law_completed_requests_are_counted(front);
        if completes(front) > 0 {
            let i = choose|i: int|
                0 <= i < front.len() && #[trigger] front[i] is MessageComplete;
            assert(events[i] is MessageComplete);
        }
        if exists|i: int| 0 <= i < events.len() && #[trigger] events[i] is MessageComplete {
            let i = choose|i: int|
                0 <= i < events.len() && #[trigger] events[i] is MessageComplete;
            if i < front.len() {
                assert(front[i] is MessageComplete);
            }
        }
    }
}

/// The bytes of bodies add up, and nothing else counts.
pub proof fn law_body_bytes_add_up(events: Seq<EventView>, e: EventView)
    ensures
        body_len(Seq::empty()) == 0,
        e matches EventView::Body(len) ==> body_len(events.push(e)) == body_len(events) + len,
        !(e is Body) ==> body_len(events.push(e)) == body_len(events),
{
    assert(events.push(e).drop_last() =~= events);
}

/// Each request that begins takes one of those that can begin, as long as there are any; nothing
/// else does. A parser is paused once a request is completed when none can begin any more, and
/// never where there is no limit.
pub proof fn law_pause_comes_with_the_last_request(
    free: usize,
    events: Seq<EventView>,
    e: EventView,
)
    ensures
        remaining(free as nat, Seq::empty()) == free,
        e is MessageBegin && remaining(free as nat, events) > 0 ==> remaining(
            free as nat,
            events.push(e),
        ) == remaining(free as nat, events) - 1,
        !(e is MessageBegin) || remaining(free as nat, events) == 0 ==> remaining(
            free as nat,
            events.push(e),
        ) == remaining(free as nat, events),
        !pauses(None, events),
        !pauses(Some(free), Seq::empty()),
        pauses(Some(free), events.push(e)) <==> pauses(Some(free), events) || (
        e is MessageComplete && remaining(free as nat, events) == 0),
{
    assert(events.push(e).drop_last() =~= events);
}

/// A parser is given the very bytes that were received, with the number of requests that can
/// begin, behind all that it was given before. Only a pause is ended before that.
pub proof fn law_parser_is_given_the_bytes(
    parser: RequestParser,
    history: Seq<Fed>,
    free: Option<usize>,
    data: Seq<u8>,
)
    ensures
        parser.given(free, data) == given(parser.history(), parser.paused(), free, data),
        given(history, false, free, data) == history.push(Fed::Bytes(data, free)),
        given(history, true, free, data) == history.push(Fed::Unpause).push(
            Fed::Bytes(data, free),
        ),
        forall|events: Seq<EventView>| #[trigger]
            ends_complete(events) <==> events.len() > 0 && events.last() is MessageComplete,
{
}

} // verus!
