//! Requests that are refused because a line of theirs does not fit into the read buffer.

use vstd::prelude::*;
use vstd::string::*;

verus! {

/// The size of the buffer that a connection reads requests into.
pub const READ_BUFFER_SIZE: usize = 4096;

/// Why a request is refused.
#[derive(Clone, Copy, Debug, PartialEq, Eq, Structural)]
pub enum Refusal {
    /// Its request line does not fit into the read buffer.
    UriTooLong,
    /// One of its header fields does not fit into the read buffer.
    BadRequest,
}

impl Refusal {
    /// The status line that answers the request.
    pub open spec fn status_spec(self) -> &'static str {
        match self {
            Refusal::UriTooLong => "HTTP/1.1 414 URI Too Long\r\n",
            Refusal::BadRequest => "HTTP/1.1 400 Bad Request\r\n",
        }
    }

    /// The status line that answers the request.
    pub fn status(self) -> (r: &'static str)
        ensures
            r@ == self.status_spec()@,
    {
        match self {
            Refusal::UriTooLong => "HTTP/1.1 414 URI Too Long\r\n",
            Refusal::BadRequest => "HTTP/1.1 400 Bad Request\r\n",
        }
    }
}

/// The head of a request that is read on though it is not kept: only the lengths of its lines
/// are looked at.
#[derive(Clone, Copy, Debug, PartialEq, Eq, Structural)]
pub enum HeadScan {
    /// A line is being read.
    Line {
        /// Whether it is the request line, which empty lines may come before.
        request_line: bool,
        /// How many bytes of it have been read.
        len: usize,
        /// Whether the last of them was a carriage return, which may belong to its end.
        cr: bool,
    },
    /// A line was too long: the request is refused.
    TooLong(Refusal),
    /// The head has come to its end, and none of its lines was too long.
    Ended,
}

impl HeadScan {
    /// At the beginning of a line.
    pub open spec fn line_start(request_line: bool) -> Self {
        HeadScan::Line { request_line, len: 0, cr: false }
    }

    /// A line that is being read fits into the read buffer, not counting its end.
    pub open spec fn wf(self) -> bool {
        match self {
            HeadScan::Line { request_line, len, cr } => {
                &&& cr ==> len > 0
                &&& len <= READ_BUFFER_SIZE + if cr {
                    1int
                } else {
                    0int
                }
            },
            _ => true,
        }
    }

    /// Behind one more byte.
    pub open spec fn byte(self, byte: u8) -> Self {
        match self {
            HeadScan::Line { request_line, len, cr } => if byte == 10 {
                if len > 1 || (len == 1 && !cr) {
                    Self::line_start(false)
                } else if request_line {
                    Self::line_start(true)
                } else {
                    HeadScan::Ended
                }
            } else if len < READ_BUFFER_SIZE || (len == READ_BUFFER_SIZE && byte == 13) {
                HeadScan::Line { request_line, len: (len + 1) as usize, cr: byte == 13 }
            } else {
                HeadScan::TooLong(
                    if request_line {
                        Refusal::UriTooLong
                    } else {
                        Refusal::BadRequest
                    },
                )
            },
            _ => self,
        }
    }

    /// Behind some more bytes.
    pub open spec fn bytes(self, data: Seq<u8>) -> Self
        decreases data.len(),
    {
        if data.len() == 0 {
            self
        } else {
            self.bytes(data.drop_last()).byte(data.last())
        }
    }

    /// Before the first byte of a head.
    pub fn new() -> (r: Self)
        ensures
            r == HeadScan::line_start(true),
            r.wf(),
    {
        HeadScan::Line { request_line: true, len: 0, cr: false }
    }

    /// Reads one more byte.
    fn next(self, byte: u8) -> (r: Self)
        requires
            self.wf(),
        ensures
            r == self.byte(byte),
            r.wf(),
    {
        match self {
            HeadScan::Line { request_line, len, cr } => if byte == 10 {
                if len > 1 || (len == 1 && !cr) {
                    HeadScan::Line { request_line: false, len: 0, cr: false }
                } else if request_line {
                    HeadScan::Line { request_line: true, len: 0, cr: false }
                } else {
                    HeadScan::Ended
                }
            } else if len < READ_BUFFER_SIZE || (len == READ_BUFFER_SIZE && byte == 13) {
                HeadScan::Line { request_line, len: len + 1, cr: byte == 13 }
            } else {
                HeadScan::TooLong(
                    if request_line {
                        Refusal::UriTooLong
                    } else {
                        Refusal::BadRequest
                    },
                )
            },
            _ => self,
        }
    }

    /// Reads some more bytes.
    pub fn read(self, data: &[u8]) -> (r: Self)
        requires
            self.wf(),
        ensures
            r == self.bytes(data@),
            r.wf(),
    {
        let mut r = self;
        let mut i: usize = 0;
        assert(data@.take(0) =~= Seq::empty());
        while i < data.len()
            invariant
                i <= data@.len(),
                r.wf(),
                r == self.bytes(data@.take(i as int)),
            decreases data@.len() - i,
        {
            assert(data@.take(i + 1).drop_last() =~= data@.take(i as int));
            r = r.next(data[i]);
            i = i + 1;
        }
        assert(data@.take(i as int) =~= data@);
        r
    }
}

/// The length of a line that has not been ended by a line feed: a carriage return that is its
/// last byte may belong to its end, and does not count.
pub open spec fn line_len(line: Seq<u8>) -> nat {
    if line.len() > 0 && line.last() == 13 {
        (line.len() - 1) as nat
    } else {
        line.len()
    }
}

/// A head can be read in any portions: how it was cut into reads does not matter.
pub proof fn law_head_portions_add_up(s: HeadScan, a: Seq<u8>, b: Seq<u8>)
    ensures
        s.bytes(a + b) == s.bytes(a).bytes(b),
    decreases b.len(),
{
    if b.len() == 0 {
        assert(a + b =~= a);
    } else {
        assert((a + b).drop_last() =~= a + b.drop_last());
        law_head_portions_add_up(s, a, b.drop_last());
    }
}

/// A line is refused exactly when it is longer than the read buffer, not counting its end: the
/// request line with 414, a header field with 400. A line that fits is read to its end, and an
/// empty line behind the request line ends the head.
pub proof fn law_line_is_measured(request_line: bool, line: Seq<u8>)
    requires
        !line.contains(10u8),
    ensures
        ({
            let s = HeadScan::line_start(request_line);
            let refused = HeadScan::TooLong(
                if request_line {
                    Refusal::UriTooLong
                } else {
                    Refusal::BadRequest
                },
            );
            &&& line_len(line) > READ_BUFFER_SIZE ==> s.bytes(line) == refused && s.bytes(
                line.push(10u8),
            ) == refused
            &&& line_len(line) <= READ_BUFFER_SIZE ==> {
                &&& s.bytes(line) is Line
                &&& s.bytes(line.push(10u8)) == (if line_len(line) > 0 {
                    HeadScan::line_start(false)
                } else if request_line {
                    HeadScan::line_start(true)
                } else {
                    HeadScan::Ended
                })
            }
        }),
{
    lemma_line(request_line, line);
    assert(line.push(10u8).drop_last() =~= line);
}

/// Where a line has been read to.
proof fn lemma_line(request_line: bool, line: Seq<u8>)
    requires
        !line.contains(10u8),
    ensures
        HeadScan::line_start(request_line).bytes(line) == (if line_len(line) > READ_BUFFER_SIZE {
            HeadScan::TooLong(
                if request_line {
                    Refusal::UriTooLong
                } else {
                    Refusal::BadRequest
                },
            )
        } else {
            HeadScan::Line {
                request_line,
                len: line.len() as usize,
                cr: line.len() > 0 && line.last() == 13,
            }
        }),
    decreases line.len(),
{
    if line.len() > 0 {
        let front = line.drop_last();
        assert forall|i: int| 0 <= i < front.len() implies front[i] != 10 by {
            assert(front[i] == line[i]);
            assert(line.contains(line[i]));
        }
        assert(line.contains(line.last()));
        lemma_line(request_line, front);
    }
}

/// No line of what fits into the read buffer is too long.
pub proof fn lemma_no_line_too_long(data: Seq<u8>)
    requires
        data.len() <= READ_BUFFER_SIZE,
    ensures
        !(HeadScan::line_start(true).bytes(data) is TooLong),
        HeadScan::line_start(true).bytes(data) matches HeadScan::Line { request_line, len, cr }
            ==> len <= data.len(),
    decreases data.len(),
{
    if data.len() > 0 {
        lemma_no_line_too_long(data.drop_last());
    }
}

/// A request line that is too long is answered 414, and a header field that is too long 400. The
/// buffer has room for 4096 bytes.
pub proof fn law_refusals_have_their_status()
    ensures
        Refusal::UriTooLong.status_spec()@ == "HTTP/1.1 414 URI Too Long\r\n"@,
        Refusal::BadRequest.status_spec()@ == "HTTP/1.1 400 Bad Request\r\n"@,
        READ_BUFFER_SIZE == 4096,
{
}

/// A line feed ends a line. One behind nothing, or behind a carriage return alone, ends the head,
/// unless the request line has not come yet; behind anything else a header field comes next.
pub proof fn law_line_feed_ends_a_line(request_line: bool, len: usize, cr: bool)
    requires
        cr ==> len > 0,
    ensures
        ({
            let next = (HeadScan::Line { request_line, len, cr }).byte(10);
            let content = len - if cr {
                1int
            } else {
                0int
            };
            &&& content > 0 ==> next == (HeadScan::Line { request_line: false, len: 0, cr: false })
            &&& content == 0 && request_line ==> next == (HeadScan::Line {
                request_line: true,
                len: 0,
                cr: false,
            })
            &&& content == 0 && !request_line ==> next is Ended
        }),
{
}

/// Any other byte belongs to the line. The line is too long as soon as it has more than 4096 bytes
/// that cannot belong to its end: the request is refused then, with 414 or 400. A verdict is final.
pub proof fn law_byte_belongs_to_the_line(
    request_line: bool,
    len: usize,
    cr: bool,
    byte: u8,
    refusal: Refusal,
)
    requires
        byte != 10,
        len <= 4096 + if cr {
            1int
        } else {
            0int
        },
    ensures
        ({
            let next = (HeadScan::Line { request_line, len, cr }).byte(byte);
            let content = len + 1 - if byte == 13 {
                1int
            } else {
                0int
            };
            &&& content <= 4096 ==> next == (HeadScan::Line {
                request_line,
                len: (len + 1) as usize,
                cr: byte == 13,
            })
            &&& content > 4096 && request_line ==> next == HeadScan::TooLong(Refusal::UriTooLong)
            &&& content > 4096 && !request_line ==> next == HeadScan::TooLong(Refusal::BadRequest)
        }),
        HeadScan::TooLong(refusal).byte(byte) == HeadScan::TooLong(refusal),
        HeadScan::TooLong(refusal).byte(10) == HeadScan::TooLong(refusal),
        HeadScan::Ended.byte(byte) is Ended,
        HeadScan::Ended.byte(10) is Ended,
{
}

/// Bytes are read one after the other. A head begins with its request line.
pub proof fn law_bytes_are_read_in_order(s: HeadScan, data: Seq<u8>, byte: u8)
    ensures
        s.bytes(Seq::empty()) == s,
        s.bytes(data.push(byte)) == s.bytes(data).byte(byte),
        HeadScan::line_start(true) == (HeadScan::Line { request_line: true, len: 0, cr: false }),
        HeadScan::line_start(false) == (HeadScan::Line { request_line: false, len: 0, cr: false }),
        line_len(data.push(byte)) == data.len() + if byte == 13 {
            0nat
        } else {
            1nat
        },
        line_len(Seq::empty()) == 0,
{
    assert(data.push(byte).drop_last() =~= data);
}

} // verus!
