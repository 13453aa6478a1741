//! A response that is kept in pieces and written with gathering writes.

use vstd::prelude::*;
use vstd::string::*;

use crate::text::push_bytes;

verus! {

/// How many pieces one write takes.
pub const MAX_SEGMENTS: usize = 1024;

/// The status line of every answered request.
pub open spec fn code_ok() -> &'static str {
    "HTTP/1.1 200 OK\r\n"
}

/// The bytes of a list of pieces.
pub open spec fn pieces(parts: Seq<&[u8]>) -> Seq<Seq<u8>> {
    parts.map_values(|part: &[u8]| part@)
}

/// A response.
///
/// As we don't support pipelining here there is exactly one response in a connection at a
/// time, which is cleaned up before each writing stage without memory deallocation.
#[derive(Debug)]
pub struct Response {
    /// The status line.
    pub code: &'static str,
    pub headers: Vec<&'static [u8]>,
    pub body: Vec<u8>,
    /// How much there is to write.
    pub size: usize,
    /// How much has been written.
    pub nwritten: usize,
}

/// What a [`Response`] holds.
#[verifier::ext_equal]
pub struct ResponseView {
    pub code: Seq<u8>,
    pub headers: Seq<Seq<u8>>,
    pub body: Seq<u8>,
    pub size: int,
    pub nwritten: int,
}

impl View for Response {
    type V = ResponseView;

    open spec fn view(&self) -> ResponseView {
        ResponseView {
            code: self.code.spec_bytes(),
            headers: pieces(self.headers@),
            body: self.body@,
            size: self.size as int,
            nwritten: self.nwritten as int,
        }
    }
}

/// The pieces that are handed to a write once `offset` bytes have been written: a piece that
/// is not longer than the offset is left out and shortens the offset, any other piece is
/// given without its first `offset` bytes.
pub open spec fn cut(parts: Seq<Seq<u8>>, offset: int) -> Seq<Seq<u8>>
    decreases parts.len(),
{
    if parts.len() == 0 {
        Seq::empty()
    } else if offset < parts[0].len() {
        seq![parts[0].skip(offset)] + cut(parts.skip(1), offset)
    } else {
        cut(parts.skip(1), offset - parts[0].len())
    }
}

impl ResponseView {
    /// Nothing but the status line.
    pub open spec fn initial() -> Self {
        ResponseView {
            code: code_ok().spec_bytes(),
            headers: Seq::empty(),
            body: Seq::empty(),
            size: 0,
            nwritten: 0,
        }
    }

    /// All pieces, in order.
    pub open spec fn parts(self) -> Seq<Seq<u8>> {
        seq![self.code] + self.headers + seq![self.body]
    }

    /// The whole response.
    pub open spec fn bytes(self) -> Seq<u8> {
        self.parts().flatten()
    }

    /// The pieces of the next write.
    pub open spec fn segments(self) -> Seq<Seq<u8>> {
        cut(self.parts(), self.nwritten)
    }

    /// With another status line.
    pub open spec fn with_status(self, status: Seq<u8>) -> Self {
        ResponseView { code: status, size: self.size + status.len(), ..self }
    }

    /// With one more header.
    pub open spec fn with_header(self, header: Seq<u8>) -> Self {
        ResponseView {
            headers: self.headers.push(header),
            size: self.size + header.len(),
            ..self
        }
    }

    /// With more of the body.
    pub open spec fn with_data(self, data: Seq<u8>) -> Self {
        ResponseView { body: self.body + data, size: self.size + data.len(), ..self }
    }
}

impl Response {
    /// Nothing but the status line.
    pub fn new() -> (r: Self)
        ensures
            r@ == ResponseView::initial(),
    {
        let r = Response {
            code: "HTTP/1.1 200 OK\r\n",
            headers: Vec::with_capacity(64),
            body: Vec::with_capacity(4096),
            size: 0,
            nwritten: 0,
        };
        assert(r@.headers =~= Seq::empty());
        assert(r@.body =~= Seq::empty());
        r
    }

    /// Makes the response what a new one is.
    pub fn reset(&mut self)
        ensures
            final(self)@ == ResponseView::initial(),
    {
        self.code = "HTTP/1.1 200 OK\r\n";
        self.headers.clear();
        self.body.clear();
        self.size = 0;
        self.nwritten = 0;
        assert(self@.headers =~= Seq::empty());
    }

    /// Sets the status line.
    pub fn set_status(&mut self, status: &'static str)
        requires
            old(self).size + status.spec_bytes().len() <= usize::MAX,
        ensures
            final(self)@ == old(self)@.with_status(status.spec_bytes()),
    {
        self.code = status;
        self.size = self.size + status.as_bytes().len();
    }

    /// Adds a header line.
    pub fn add_header(&mut self, header: &'static str)
        requires
            old(self).size + header.spec_bytes().len() <= usize::MAX,
        ensures
            final(self)@ == old(self)@.with_header(header.spec_bytes()),
    {
        let bytes: &'static [u8] = header.as_bytes();
        self.headers.push(bytes);
        self.size = self.size + bytes.len();
        assert(self@.headers =~= old(self)@.headers.push(header.spec_bytes()));
    }

    /// Adds to the body.
    pub fn write(&mut self, data: &[u8])
        requires
            old(self).size + data@.len() <= usize::MAX,
        ensures
            final(self)@ == old(self)@.with_data(data@),
    {
        push_bytes(&mut self.body, data);
        self.size = self.size + data.len();
    }

    /// The pieces that are still to be written.
    pub fn segments(&self) -> (r: Vec<&[u8]>)
        ensures
            pieces(r@) == self@.segments(),
    {
        let mut iov: Vec<&[u8]> = Vec::new();
        let mut offset: usize = self.nwritten;
        let ghost parts = self@.parts();
        let ghost all = self@.segments();
        let code: &[u8] = self.code.as_bytes();
        assert(parts[0] == code@);
        assert(pieces(iov@) =~= Seq::empty());
        if offset < code.len() {
            let rest = vstd::slice::slice_subrange(code, offset, code.len());
            assert(rest@ =~= code@.skip(offset as int));
            iov.push(rest);
            assert(pieces(iov@) =~= seq![code@.skip(offset as int)]);
        } else {
            offset = offset - code.len();
        }
        assert(pieces(iov@) + cut(parts.skip(1), offset as int) =~= all);
        let mut i: usize = 0;
        while i < self.headers.len()
            invariant
                i <= self.headers.len(),
                parts == self@.parts(),
                all == self@.segments(),
                pieces(iov@) + cut(parts.skip(i + 1), offset as int) == all,
            decreases self.headers.len() - i,
        {
            let header: &[u8] = self.headers[i];
            let ghost before = pieces(iov@);
            let ghost rest = parts.skip(i + 1);
            assert(rest[0] == header@);
            assert(rest.skip(1) =~= parts.skip(i + 2));
            if offset < header.len() {
                let piece = vstd::slice::slice_subrange(header, offset, header.len());
                assert(piece@ =~= header@.skip(offset as int));
                iov.push(piece);
                assert(pieces(iov@) =~= before + seq![header@.skip(offset as int)]);
            } else {
                offset = offset - header.len();
            }
            assert(pieces(iov@) + cut(parts.skip(i + 2), offset as int) =~= all);
            i = i + 1;
        }
        let ghost before = pieces(iov@);
        let ghost rest = parts.skip(i + 1);
        assert(rest =~= seq![self.body@]);
        assert(rest.skip(1) =~= Seq::empty());
        assert(cut(Seq::empty(), offset as int) =~= Seq::empty());
        assert(cut(Seq::empty(), offset - self.body@.len()) =~= Seq::empty());
        let body: &[u8] = self.body.as_slice();
        if offset < body.len() {
            let piece = vstd::slice::slice_subrange(body, offset, body.len());
            assert(piece@ =~= body@.skip(offset as int));
            iov.push(piece);
            assert(pieces(iov@) =~= before + seq![body@.skip(offset as int)]);
        }
        assert(pieces(iov@) =~= all);
        iov
    }

    /// Hands the pieces that are still to be written to `f`.
    pub fn with<R, F: Fn(&[&[u8]]) -> R>(&self, f: F) -> (r: R)
        requires
            self@.segments().len() <= MAX_SEGMENTS,
            forall|iov: &[&[u8]]|
                pieces(iov@) == self@.segments() ==> #[trigger] f.requires((iov,)),
        ensures
            exists|iov: &[&[u8]]|
                pieces(iov@) == self@.segments() && #[trigger] f.ensures((iov,), r),
    {
        let iov = self.segments();
        f(iov.as_slice())
    }
}

/// Whether the pieces that are handed to a write after `offset` bytes are exactly the bytes
/// that are left: the bytes before ended with a piece, or in a piece with nothing behind it.
pub open spec fn resumes(parts: Seq<Seq<u8>>, offset: int) -> bool
    decreases parts.len(),
{
    if parts.len() == 0 {
        true
    } else if offset < parts[0].len() {
        offset == 0 || parts.skip(1).flatten().len() == 0
    } else {
        resumes(parts.skip(1), offset - parts[0].len())
    }
}

proof fn lemma_flatten_first(parts: Seq<Seq<u8>>)
    requires
        parts.len() > 0,
    ensures
        parts.flatten() == parts[0] + parts.skip(1).flatten(),
{
    assert(parts.drop_first() =~= parts.skip(1));
    assert(parts.first() == parts[0]);
}

proof fn lemma_flatten_cons(piece: Seq<u8>, rest: Seq<Seq<u8>>)
    ensures
        (seq![piece] + rest).flatten() == piece + rest.flatten(),
{
    lemma_flatten_first(seq![piece] + rest);
    assert((seq![piece] + rest).skip(1) =~= rest);
}

/// A cut never adds bytes, and one at a positive offset takes some away if there are any.
proof fn lemma_cut_shortens(parts: Seq<Seq<u8>>, offset: int)
    requires
        offset >= 0,
    ensures
        cut(parts, offset).flatten().len() <= parts.flatten().len(),
        offset > 0 && parts.flatten().len() > 0 ==> cut(parts, offset).flatten().len()
            < parts.flatten().len(),
        offset == 0 ==> cut(parts, offset).flatten() == parts.flatten(),
    decreases parts.len(),
{
    if parts.len() > 0 {
        lemma_flatten_first(parts);
        if offset < parts[0].len() {
            lemma_cut_shortens(parts.skip(1), offset);
            lemma_flatten_cons(parts[0].skip(offset), cut(parts.skip(1), offset));
            assert(parts[0].skip(0) =~= parts[0]);
        } else {
            lemma_cut_shortens(parts.skip(1), offset - parts[0].len());
            if offset == 0 {
                assert(parts[0] + parts.skip(1).flatten() =~= parts.skip(1).flatten());
            }
        }
    }
}

/// After a write of `offset` bytes the next write is given exactly the rest of the response
/// if, and only if, the write before ended with a piece or in one with nothing behind it.
pub proof fn law_next_write_resumes(parts: Seq<Seq<u8>>, offset: int)
    requires
        0 <= offset <= parts.flatten().len(),
    ensures
        (cut(parts, offset).flatten() == parts.flatten().skip(offset)) == resumes(parts, offset),
    decreases parts.len(),
{
    if parts.len() == 0 {
        assert(cut(parts, offset).flatten() =~= parts.flatten().skip(offset));
    } else {
        let rest = parts.skip(1);
        lemma_flatten_first(parts);
        if offset < parts[0].len() {
            lemma_cut_shortens(rest, offset);
            lemma_flatten_cons(parts[0].skip(offset), cut(rest, offset));
            assert(parts.flatten().skip(offset) =~= parts[0].skip(offset) + rest.flatten());
            if resumes(parts, offset) {
                assert(cut(rest, offset).flatten() =~= rest.flatten());
            } else {
                assert(cut(parts, offset).flatten().len() < parts.flatten().skip(offset).len());
            }
        } else {
            law_next_write_resumes(rest, offset - parts[0].len());
            assert(parts.flatten().skip(offset) =~= rest.flatten().skip(
                offset - parts[0].len(),
            ));
        }
    }
}

/// The first write of a response is given all of it.
pub proof fn law_first_write_is_whole(v: ResponseView)
    requires
        v.nwritten == 0,
    ensures
        v.segments().flatten() == v.bytes(),
{
    lemma_cut_shortens(v.parts(), 0);
}

/// A response is a status line, header lines and a body, in this order.
pub proof fn law_parts_in_order(v: ResponseView)
    ensures
        v.bytes() == v.code + v.headers.flatten() + v.body,
{
    vstd::seq_lib::lemma_flatten_concat(seq![v.code], v.headers);
    vstd::seq_lib::lemma_flatten_concat(seq![v.code] + v.headers, seq![v.body]);
    seq![v.code].lemma_flatten_one_element();
    seq![v.body].lemma_flatten_one_element();
}

/// What is to be written is counted right from the moment that the status line is set on a
/// response that has been reset.
pub proof fn law_status_is_counted(status: Seq<u8>)
    ensures
        ({
            let v = ResponseView::initial().with_status(status);
            v.size == v.bytes().len()
        }),
{
    law_parts_in_order(ResponseView::initial().with_status(status));
}

/// A header line or more of the body adds as many bytes to the response as are counted.
pub proof fn law_additions_are_counted(v: ResponseView, added: Seq<u8>)
    requires
        v.size == v.bytes().len(),
    ensures
        v.with_header(added).size == v.with_header(added).bytes().len(),
        v.with_data(added).size == v.with_data(added).bytes().len(),
{
    law_parts_in_order(v);
    law_parts_in_order(v.with_header(added));
    law_parts_in_order(v.with_data(added));
    v.headers.lemma_flatten_push(added);
}

/// The view tells the fields.
pub proof fn law_view_tells_the_response(r: Response, i: int)
    ensures
        r@.code == r.code.spec_bytes(),
        r@.headers.len() == r.headers@.len(),
        0 <= i < r.headers@.len() ==> r@.headers[i] == r.headers@[i]@,
        r@.body == r.body@,
        r@.size == r.size,
        r@.nwritten == r.nwritten,
{
}

/// The pieces that are handed to a write are told by their bytes, in order.
pub proof fn law_pieces_are_told_by_their_bytes(parts: Seq<&[u8]>, i: int)
    ensures
        pieces(parts).len() == parts.len(),
        0 <= i < parts.len() ==> pieces(parts)[i] == parts[i]@,
{
}

/// A response that has been reset is that of a success, with no headers and no body, and nothing
/// of it has been counted or written.
pub proof fn law_reset_response_is_empty()
    ensures
        ResponseView::initial().code == "HTTP/1.1 200 OK\r\n".spec_bytes(),
        ResponseView::initial().headers.len() == 0,
        ResponseView::initial().body.len() == 0,
        ResponseView::initial().size == 0,
        ResponseView::initial().nwritten == 0,
        MAX_SEGMENTS == 1024,
{
}

/// A status line replaces the one before, a header comes behind the headers, and data behind the
/// body; each is counted, and nothing else changes.
pub proof fn law_additions_change_one_part(v: ResponseView, added: Seq<u8>)
    ensures
        ({
            let w = v.with_status(added);
            &&& w.code == added
            &&& w.headers == v.headers
            &&& w.body == v.body
            &&& w.size == v.size + added.len()
            &&& w.nwritten == v.nwritten
        }),
        ({
            let w = v.with_header(added);
            &&& w.code == v.code
            &&& w.headers.len() == v.headers.len() + 1
            &&& w.headers.drop_last() == v.headers
            &&& w.headers.last() == added
            &&& w.body == v.body
            &&& w.size == v.size + added.len()
            &&& w.nwritten == v.nwritten
        }),
        ({
            let w = v.with_data(added);
            &&& w.code == v.code
            &&& w.headers == v.headers
            &&& w.body == v.body + added
            &&& w.size == v.size + added.len()
            &&& w.nwritten == v.nwritten
        }),
{
    assert(v.with_header(added).headers.drop_last() =~= v.headers);
}

/// A response is written from its status line over its headers to its body.
pub proof fn law_parts_of_a_response(v: ResponseView, i: int)
    ensures
        v.parts().len() == v.headers.len() + 2,
        v.parts()[0] == v.code,
        0 <= i < v.headers.len() ==> v.parts()[i + 1] == v.headers[i],
        v.parts().last() == v.body,
        v.bytes() == v.parts().flatten(),
        v.segments() == cut(v.parts(), v.nwritten),
{
}

/// A piece that has been written is left out and its bytes are not skipped again; of any other
/// piece as many bytes are skipped as are left to skip, and pieces without bytes are left out.
pub proof fn law_written_pieces_are_left_out(piece: Seq<u8>, rest: Seq<Seq<u8>>, offset: int)
    requires
        offset >= 0,
    ensures
        cut(Seq::empty(), offset).len() == 0,
        offset >= piece.len() ==> cut(seq![piece] + rest, offset) == cut(
            rest,
            offset - piece.len(),
        ),
        offset < piece.len() ==> cut(seq![piece] + rest, offset) == seq![piece.skip(offset)] + cut(
            rest,
            offset,
        ),
{
    assert((seq![piece] + rest).skip(1) =~= rest);
}

} // verus!
