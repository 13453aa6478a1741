//! Request heads: what the HTTP parser finds at the front of a read buffer.

use vstd::prelude::*;
use vstd::string::*;

use crate::text::same_bytes;

verus! {

/// How many header fields of a request are taken.
pub const MAX_HEADERS: usize = 64;

/// A header field.
#[derive(Debug)]
pub struct Header {
    pub name: Vec<u8>,
    pub value: Vec<u8>,
}

/// The name and the value of a header field.
pub open spec fn header_view(header: Header) -> (Seq<u8>, Seq<u8>) {
    (header.name@, header.value@)
}

/// What is at the front of a read buffer.
#[derive(Debug)]
pub enum Head {
    /// A request line and headers to their end.
    Complete(Vec<Header>),
    /// The beginning of a request line and headers.
    Partial,
    /// Neither.
    Malformed,
}

/// What a [`Head`] holds: nothing where it is malformed, no headers where it is partial.
pub open spec fn head_view(head: Head) -> Option<Option<Seq<(Seq<u8>, Seq<u8>)>>> {
    match head {
        Head::Complete(headers) => Some(Some(headers@.map_values(|h: Header| header_view(h)))),
        Head::Partial => Some(None),
        Head::Malformed => None,
    }
}

/// What `httparse::Request::parse` makes of `buf` when it is given room for `max_headers`
/// header fields: nothing where it returns an error, no headers where it returns
/// `Status::Partial`, and otherwise the names and the values of the headers, in order.
pub uninterp spec fn parsed_head(buf: Seq<u8>, max_headers: nat) -> Option<
    Option<Seq<(Seq<u8>, Seq<u8>)>>,
>;

/// Calls `httparse::Request::parse` on `buf` with room for `max_headers` header fields.
///
/// Claimed of it: what it returns, with the header fields of a complete head, depends on the
/// bytes and on that room alone, and is what `parsed_head` names. Which error it returns is
/// not told.
#[verifier::external_body]
fn httparse_request(buf: &[u8], max_headers: usize) -> (r: Head)
    requires
        max_headers <= 0x1_0000,
    ensures
        head_view(r) == parsed_head(buf@, max_headers as nat),
{
    let mut headers = vec![httparse::EMPTY_HEADER; max_headers];
    let mut request = httparse::Request::new(&mut headers);
    match request.parse(buf) {
        Ok(httparse::Status::Complete(_)) => Head::Complete(
            request.headers.iter().map(
                |h| Header { name: h.name.as_bytes().to_vec(), value: h.value.to_vec() },
            ).collect(),
        ),
        Ok(httparse::Status::Partial) => Head::Partial,
        Err(_) => Head::Malformed,
    }
}

/// Parses the request head at the front of `buf`.
pub fn parse_head(buf: &[u8]) -> (r: Head)
    ensures
        head_view(r) == parsed_head(buf@, MAX_HEADERS as nat),
{
    httparse_request(buf, MAX_HEADERS)
}

/// Whether a header field asks to close the connection: its name and its value are matched
/// to the letter.
pub open spec fn closes(header: (Seq<u8>, Seq<u8>)) -> bool {
    header == ("Connection".spec_bytes(), "Close".spec_bytes())
}

/// Whether the connection stays open after a request with these header fields.
pub open spec fn keeps_alive(headers: Seq<(Seq<u8>, Seq<u8>)>) -> bool {
    forall|i: int| 0 <= i < headers.len() ==> !#[trigger] closes(headers[i])
}

/// Whether the connection stays open after a request with these header fields.
pub fn should_keep_alive(headers: &Vec<Header>) -> (r: bool)
    ensures
        r == keeps_alive(headers@.map_values(|h: Header| header_view(h))),
{
    let ghost views = headers@.map_values(|h: Header| header_view(h));
    let mut i: usize = 0;
    while i < headers.len()
        invariant
            i <= headers.len(),
            views == headers@.map_values(|h: Header| header_view(h)),
            forall|j: int| 0 <= j < i ==> !#[trigger] closes(views[j]),
        decreases headers.len() - i,
    {
        let header = &headers[i];
        assert(views[i as int] == header_view(*header));
        if same_bytes(header.name.as_slice(), "Connection".as_bytes()) && same_bytes(
            header.value.as_slice(),
            "Close".as_bytes(),
        ) {
            assert(closes(views[i as int]));
            return false;
        }
        i = i + 1;
    }
    true
}

/// A head is told by its headers, in order: by the bytes of their names and of their values.
pub proof fn law_view_tells_the_head(head: Head, headers: Vec<Header>, i: int)
    ensures
        head_view(head) is None <==> head is Malformed,
        head_view(head) == Some(None::<Seq<(Seq<u8>, Seq<u8>)>>) <==> head is Partial,
        head_view(Head::Complete(headers)) is Some,
        head_view(Head::Complete(headers))->0 is Some,
        ({
            let views = head_view(Head::Complete(headers))->0->0;
            &&& views.len() == headers@.len()
            &&& 0 <= i < headers@.len() ==> views[i].0 == headers@[i].name@ && views[i].1
                == headers@[i].value@
        }),
{
}

/// The place of a header field does not matter: some fields and some more keep the connection open
/// exactly if both do.
pub proof fn law_every_header_is_looked_at(
    a: Seq<(Seq<u8>, Seq<u8>)>,
    b: Seq<(Seq<u8>, Seq<u8>)>,
)
    ensures
        keeps_alive(a + b) <==> keeps_alive(a) && keeps_alive(b),
{
    if keeps_alive(a + b) {
        assert forall|i: int| 0 <= i < a.len() implies !#[trigger] closes(a[i]) by {
            assert((a + b)[i] == a[i]);
        }
        assert forall|i: int| 0 <= i < b.len() implies !#[trigger] closes(b[i]) by {
            assert((a + b)[a.len() + i] == b[i]);
        }
    }
}

/// A request asks to close the connection with the header field `Connection: Close`, to the
/// letter, whatever comes before it and behind it. Without that field the connection stays open.
pub proof fn law_close_is_heard(
    a: Seq<(Seq<u8>, Seq<u8>)>,
    b: Seq<(Seq<u8>, Seq<u8>)>,
    headers: Seq<(Seq<u8>, Seq<u8>)>,
)
    ensures
        !keeps_alive(a + seq![("Connection".spec_bytes(), "Close".spec_bytes())] + b),
        !headers.contains(("Connection".spec_bytes(), "Close".spec_bytes())) ==> keeps_alive(
            headers,
        ),
{
    let close = ("Connection".spec_bytes(), "Close".spec_bytes());
    assert((a + seq![close] + b)[a.len() as int] == close);
    assert(closes((a + seq![close] + b)[a.len() as int]));
    if !headers.contains(close) {
        assert forall|i: int| 0 <= i < headers.len() implies !#[trigger] closes(headers[i]) by {
            if headers[i] == close {
                assert(headers.contains(headers[i]));
            }
        }
    }
}

} // verus!
