//! The head of an HTTP request and the verdict on the bytes received so far.
//!
//! The head is parsed by `httparse`; what it yields is carried in
//! [`HeadStatus`]. Whether the request is complete and how to answer it is
//! decided by [`judge`], from the number of bytes received and the parsed head
//! alone.

use vstd::prelude::*;
use vstd::slice::slice_subrange;
use crate::command::bytes_equal;
use crate::length::{length_value, parse_length};

verus! {

/// How many headers a request head may hold.
pub const MAX_HEADERS: usize = 64;

/// The header name `Content-Length`.
pub const CONTENT_LENGTH: [u8; 14] = [
    0x43, 0x6f, 0x6e, 0x74, 0x65, 0x6e, 0x74, 0x2d, 0x4c, 0x65, 0x6e, 0x67, 0x74, 0x68,
];

/// The method `POST`.
pub const POST: [u8; 4] = [0x50, 0x4f, 0x53, 0x54];

/// The path `/`.
pub const ROOT: [u8; 1] = [0x2f];

/// One header line: its name and its value, as bytes.
#[derive(Debug, PartialEq, Eq)]
pub struct Header {
    pub name: Vec<u8>,
    pub value: Vec<u8>,
}

/// A completely parsed request head.
#[derive(Debug, PartialEq, Eq)]
pub struct RequestHead {
    /// Number of bytes the head takes: the offset at which the body starts.
    pub length: usize,
    pub method: Option<Vec<u8>>,
    pub path: Option<Vec<u8>>,
    pub headers: Vec<Header>,
}

/// What parsing the received bytes as a request head gave.
#[derive(Debug, PartialEq, Eq)]
pub enum HeadStatus {
    /// The head is complete.
    Complete(RequestHead),
    /// The bytes are the beginning of a head; more are needed.
    Partial,
    /// The bytes cannot begin a request head.
    Malformed,
}

/// Mathematical value of a [`Header`].
pub struct HeaderView {
    pub name: Seq<u8>,
    pub value: Seq<u8>,
}

/// Mathematical value of a [`RequestHead`].
pub struct RequestHeadView {
    pub length: nat,
    pub method: Option<Seq<u8>>,
    pub path: Option<Seq<u8>>,
    pub headers: Seq<HeaderView>,
}

/// Mathematical value of a [`HeadStatus`].
pub enum HeadStatusView {
    Complete(RequestHeadView),
    Partial,
    Malformed,
}

impl View for Header {
    type V = HeaderView;

    open spec fn view(&self) -> HeaderView {
        HeaderView { name: self.name@, value: self.value@ }
    }
}

/// The mathematical values of `headers`, in order.
pub open spec fn header_views(headers: Seq<Header>) -> Seq<HeaderView> {
    Seq::new(headers.len(), |i: int| headers[i]@)
}

/// The bytes of an optional byte vector.
pub open spec fn optional_bytes(bytes: Option<Vec<u8>>) -> Option<Seq<u8>> {
    match bytes {
        Some(bytes) => Some(bytes@),
        None => None,
    }
}

impl View for RequestHead {
    type V = RequestHeadView;

    open spec fn view(&self) -> RequestHeadView {
        RequestHeadView {
            length: self.length as nat,
            method: optional_bytes(self.method),
            path: optional_bytes(self.path),
            headers: header_views(self.headers@),
        }
    }
}

impl View for HeadStatus {
    type V = HeadStatusView;

    open spec fn view(&self) -> HeadStatusView {
        match *self {
            HeadStatus::Complete(head) => HeadStatusView::Complete(head@),
            HeadStatus::Partial => HeadStatusView::Partial,
            HeadStatus::Malformed => HeadStatusView::Malformed,
        }
    }
}

/// What `httparse` makes of `bytes` as a request head when it may fill up to
/// `max_headers` headers.
pub uninterp spec fn parsed_head(bytes: Seq<u8>, max_headers: nat) -> HeadStatusView;

/// Calls `httparse::Request::parse` on `bytes` with room for `N` headers, and
/// copies the outcome out of the parser's borrowed structures.
///
/// The contract only gives the outcome its name, [`parsed_head`]: the parser
/// is deterministic in the bytes and the number of header slots, and nothing
/// else is claimed of it. A complete parse hands over the body offset, the
/// method, the path and the headers in order; `Partial` and every parse error
/// are told apart from it and from each other.
#[verifier::external_body]
fn parse_head<const N: usize>(bytes: &[u8]) -> (status: HeadStatus)
    ensures
        status@ == parsed_head(bytes@, N as nat),
{
    let mut slots = [httparse::EMPTY_HEADER; N];
    let mut request = httparse::Request::new(&mut slots);
    match request.parse(bytes) {
        Ok(httparse::Status::Complete(length)) => HeadStatus::Complete(RequestHead {
            length,
            method: request.method.map(|m| m.as_bytes().to_vec()),
            path: request.path.map(|p| p.as_bytes().to_vec()),
            headers: request.headers.iter().map(|h| Header {
                name: h.name.as_bytes().to_vec(),
                value: h.value.to_vec(),
            }).collect(),
        }),
        Ok(httparse::Status::Partial) => HeadStatus::Partial,
        Err(_) => HeadStatus::Malformed,
    }
}

/// Whether `header` is a `Content-Length` header whose value is a number.
pub open spec fn declares_length(header: HeaderView) -> bool {
    header.name == CONTENT_LENGTH@ && length_value(header.value) is Some
}

/// The body length that `headers` declare: the value of the last
/// `Content-Length` header that holds a number, and 0 if there is none.
pub open spec fn declared_length(headers: Seq<HeaderView>) -> nat
    decreases headers.len(),
{
    if headers.len() == 0 {
        0
    } else if declares_length(headers.last()) {
        length_value(headers.last().value).unwrap() as nat
    } else {
        declared_length(headers.drop_last())
    }
}

/// Scans `headers` for the declared body length.
pub fn content_length(headers: &Vec<Header>) -> (length: usize)
    ensures
        length == declared_length(header_views(headers@)),
{
    let ghost all = header_views(headers@);
    let mut length: usize = 0;
    let mut i: usize = 0;
    proof {
        assert(all.take(0) =~= Seq::<HeaderView>::empty());
    }
    while i < headers.len()
        invariant
            i <= headers.len(),
            all == header_views(headers@),
            length == declared_length(all.take(i as int)),
        decreases headers.len() - i,
    {
        proof {
            let longer = all.take(i + 1);
            assert(longer.drop_last() =~= all.take(i as int));
            assert(longer.last() == headers@[i as int]@);
        }
        if bytes_equal(headers[i].name.as_slice(), CONTENT_LENGTH.as_slice()) {
            if let Some(value) = parse_length(headers[i].value.as_slice()) {
                length = value;
            }
        }
        i += 1;
    }
    proof {
        assert(all.take(i as int) =~= all);
    }
    length
}

/// A complete request, reduced to what the answer depends on.
#[derive(Clone, Copy, Debug, PartialEq, Eq, Structural)]
pub struct Request {
    /// The path is exactly `/`.
    pub found: bool,
    /// The method is exactly `POST`.
    pub post: bool,
    /// Offset of the first body byte among the received bytes.
    pub body_start: usize,
    /// Number of body bytes.
    pub body_length: usize,
}

/// The verdict on the bytes received so far.
#[derive(Clone, Copy, Debug, PartialEq, Eq, Structural)]
pub enum Verdict {
    /// The head or the declared body has not fully arrived.
    Incomplete,
    /// The bytes cannot begin a request.
    Malformed,
    /// Head and declared body have arrived.
    Complete(Request),
}

/// The verdict on `received` bytes whose head parsed as `head`.
///
/// A request is complete as soon as the received bytes cover the head and the
/// declared body, and no sooner.
pub open spec fn verdict_of(received: nat, head: HeadStatusView) -> Verdict {
    match head {
        HeadStatusView::Partial => Verdict::Incomplete,
        HeadStatusView::Malformed => Verdict::Malformed,
        HeadStatusView::Complete(head) => {
            let body_length = declared_length(head.headers);
            if received < head.length + body_length {
                Verdict::Incomplete
            } else {
                Verdict::Complete(
                    Request {
                        found: head.path == Some(ROOT@),
                        post: head.method == Some(POST@),
                        body_start: head.length as usize,
                        body_length: body_length as usize,
                    },
                )
            }
        },
    }
}

/// Completion depends on the count alone: a request is judged complete
/// exactly when its head is and the bytes received cover the head and the
/// body that the head declares.
pub proof fn law_complete_when_covered(received: nat, head: HeadStatusView)
    ensures
        verdict_of(received, head) is Complete <==> head is Complete && received
            >= head->Complete_0.length + declared_length(head->Complete_0.headers),
        head is Partial ==> verdict_of(received, head) is Incomplete,
        head is Malformed ==> verdict_of(received, head) is Malformed,
{
}

/// Whether `bytes` is present and equal to `expected`.
fn is_exactly(bytes: &Option<Vec<u8>>, expected: &[u8]) -> (same: bool)
    ensures
        same == (optional_bytes(*bytes) == Some(expected@)),
{
    match bytes {
        Some(bytes) => bytes_equal(bytes.as_slice(), expected),
        None => false,
    }
}

/// Decides, from the number of bytes received and their parsed head, whether
/// the request is complete and what it asks for.
pub fn judge(received: usize, head: &HeadStatus) -> (verdict: Verdict)
    ensures
        verdict == verdict_of(received as nat, head@),
{
    match head {
        HeadStatus::Partial => Verdict::Incomplete,
        HeadStatus::Malformed => Verdict::Malformed,
        HeadStatus::Complete(head) => {
            let body_length = content_length(&head.headers);
            let complete = match head.length.checked_add(body_length) {
                Some(total) => received >= total,
                None => false,
            };
            if complete {
                Verdict::Complete(
                    Request {
                        found: is_exactly(&head.path, ROOT.as_slice()),
                        post: is_exactly(&head.method, POST.as_slice()),
                        body_start: head.length,
                        body_length,
                    },
                )
            } else {
                Verdict::Incomplete
            }
        },
    }
}

/// The verdict on `bytes` as the whole of what has been received.
pub open spec fn verdict_on(bytes: Seq<u8>) -> Verdict {
    verdict_of(bytes.len(), parsed_head(bytes, MAX_HEADERS as nat))
}

/// Parses `bytes` as a request head and judges them.
pub fn examine(bytes: &[u8]) -> (verdict: Verdict)
    ensures
        verdict == verdict_on(bytes@),
{
    let head = parse_head::<MAX_HEADERS>(bytes);
    judge(bytes.len(), &head)
}

/// The body of the complete request `request` among the `received` bytes.
pub open spec fn body_of(received: Seq<u8>, request: Request) -> Seq<u8> {
    received.subrange(request.body_start as int, request.body_start + request.body_length)
}

/// A complete verdict places the body inside the received bytes.
pub proof fn lemma_body_within(received: nat, head: HeadStatusView)
    ensures
        verdict_of(received, head) matches Verdict::Complete(request) ==> request.body_start
            + request.body_length <= received,
{
}

/// The body of a complete request, as a slice of the received bytes.
pub fn body_slice(received: &[u8], request: Request) -> (body: &[u8])
    requires
        request.body_start + request.body_length <= received@.len(),
    ensures
        body@ == body_of(received@, request),
{
    proof {
        assert(received@.len() == received.len());
    }
    slice_subrange(received, request.body_start, request.body_start + request.body_length)
}

} // verus!
