//! Delivery of one request in several segments.
//!
//! TCP may hand a request over in any number of pieces. [`delivered`] serves
//! a connection once per piece. As long as no call before the last judges
//! what it holds complete or malformed, the last call does what a single call
//! does when all the bytes arrive at once: the cut into pieces does not
//! matter.

use vstd::prelude::*;
use vstd::seq_lib::lemma_flatten_concat;
use crate::connection::{intake, settle, step, Outcome, Step, CAPACITY};
use crate::request::verdict_on;
use crate::sockets::TcpView;

verus! {

/// The socket `socket` once the stack has put `chunk` into its empty receive
/// queue.
pub open spec fn arrival(socket: TcpView, chunk: Seq<u8>) -> TcpView {
    TcpView { rx: chunk, ..socket }
}

/// A connection that holds `held` is served once for each of `chunks`, the
/// chunk having arrived on the socket just before. Gives what the last call
/// did; without chunks nothing is done.
pub open spec fn delivered(
    held: Seq<u8>,
    chunks: Seq<Seq<u8>>,
    socket: TcpView,
    page: Seq<u8>,
) -> Step
    decreases chunks.len(),
{
    if chunks.len() == 0 {
        Step { outcome: Outcome::Idle, received: held, socket }
    } else {
        let first = step(held, arrival(socket, chunks.first()), page);
        if chunks.len() == 1 {
            first
        } else {
            delivered(first.received, chunks.drop_first(), first.socket, page)
        }
    }
}

/// The bytes of the first `count` chunks, joined.
pub open spec fn joined(chunks: Seq<Seq<u8>>, count: int) -> Seq<u8> {
    chunks.take(count).flatten()
}

/// No chunk is empty.
pub open spec fn all_filled(chunks: Seq<Seq<u8>>) -> bool {
    forall|i: int| 0 <= i < chunks.len() ==> (#[trigger] chunks[i]).len() > 0
}

/// A connection that holds `held` and is served once for each of `chunks`
/// keeps waiting until the last chunk: what it holds after each chunk but the
/// last is judged incomplete.
pub open spec fn waits_between(held: Seq<u8>, chunks: Seq<Seq<u8>>) -> bool {
    forall|k: int|
        0 < k < chunks.len() ==> verdict_on(held + #[trigger] joined(chunks, k)) is Incomplete
}

/// `bytes` is one request and no more: it fits the buffer, it is complete,
/// and nothing shorter that begins it is already judged complete or
/// malformed.
pub open spec fn is_single_request(bytes: Seq<u8>) -> bool {
    &&& 0 < bytes.len() <= CAPACITY
    &&& verdict_on(bytes) is Complete
    &&& forall|k: int| 0 < k < bytes.len() ==> verdict_on(#[trigger] bytes.take(k)) is Incomplete
}

/// The first chunk, then the first `count` of the others, are the first
/// `count + 1` chunks.
proof fn lemma_joined_after_first(chunks: Seq<Seq<u8>>, count: int)
    requires
        0 <= count < chunks.len(),
    ensures
        joined(chunks, count + 1) == chunks.first() + joined(chunks.drop_first(), count),
{
    let head = seq![chunks.first()];
    let tail = chunks.drop_first().take(count);
    assert(chunks.take(count + 1) =~= head + tail);
    lemma_flatten_concat(head, tail);
    head.lemma_flatten_one_element();
}

/// Chunks of which none is empty hold at least as many bytes as there are
/// chunks.
proof fn lemma_filled_length(chunks: Seq<Seq<u8>>)
    requires
        all_filled(chunks),
    ensures
        chunks.flatten().len() >= chunks.len(),
    decreases chunks.len(),
{
    if chunks.len() > 0 {
        let rest = chunks.drop_first();
        assert forall|i: int| 0 <= i < rest.len() implies (#[trigger] rest[i]).len() > 0 by {
            assert(rest[i] == chunks[i + 1]);
        }
        lemma_filled_length(rest);
        assert(chunks.first() == chunks[0]);
    }
}

/// The first `count` chunks, joined, begin the whole; and if chunks follow
/// them and none is empty, they are a proper beginning of it.
proof fn lemma_joined_begins(chunks: Seq<Seq<u8>>, count: int)
    requires
        all_filled(chunks),
        0 <= count <= chunks.len(),
    ensures
        joined(chunks, count) == chunks.flatten().take(joined(chunks, count).len() as int),
        joined(chunks, count).len() >= count,
        joined(chunks, count).len() + (chunks.len() - count) <= chunks.flatten().len(),
{
    let front = chunks.take(count);
    let back = chunks.skip(count);
    assert(chunks =~= front + back);
    lemma_flatten_concat(front, back);
    assert forall|i: int| 0 <= i < front.len() implies (#[trigger] front[i]).len() > 0 by {
        assert(front[i] == chunks[i]);
    }
    assert forall|i: int| 0 <= i < back.len() implies (#[trigger] back[i]).len() > 0 by {
        assert(back[i] == chunks[i + count]);
    }
    lemma_filled_length(front);
    lemma_filled_length(back);
    assert((front.flatten() + back.flatten()).take(front.flatten().len() as int)
        =~= front.flatten());
}

/// Serving a connection chunk by chunk ends as judging all the bytes at
/// once does, if it waits between the chunks.
proof fn lemma_delivery(held: Seq<u8>, chunks: Seq<Seq<u8>>, socket: TcpView, page: Seq<u8>)
    requires
        chunks.len() >= 1,
        all_filled(chunks),
        held.len() + chunks.flatten().len() <= CAPACITY,
        waits_between(held, chunks),
        socket.state.is_open(),
        socket.rx.len() == 0,
    ensures
        delivered(held, chunks, socket, page) == settle(held + chunks.flatten(), socket, page),
    decreases chunks.len(),
{
    let chunk = chunks.first();
    let rest = chunks.drop_first();
    assert(chunk == chunks[0]);
    assert(chunks.flatten() == chunk + rest.flatten());
    let count = intake(held.len(), chunk.len());
    assert(count == chunk.len());
    assert(chunk.take(count as int) =~= chunk);
    let grown = held + chunk;
    let arrived = arrival(socket, chunk);
    assert(arrived.drained(count).rx =~= socket.rx);
    assert(arrived.drained(count) == socket);
    if chunks.len() == 1 {
        assert(rest =~= Seq::<Seq<u8>>::empty());
        assert(grown =~= held + chunks.flatten());
    } else {
        assert forall|i: int| 0 <= i < rest.len() implies (#[trigger] rest[i]).len() > 0 by {
            assert(rest[i] == chunks[i + 1]);
        }
        lemma_filled_length(rest);
        lemma_joined_after_first(chunks, 0);
        assert(joined(rest, 0) =~= Seq::<u8>::empty());
        assert(grown =~= held + joined(chunks, 1));
        assert(verdict_on(grown) is Incomplete);
        assert forall|k: int| 0 < k < rest.len() implies verdict_on(
            grown + #[trigger] joined(rest, k),
        ) is Incomplete by {
            lemma_joined_after_first(chunks, k);
            assert(grown + joined(rest, k) =~= held + joined(chunks, k + 1));
        }
        lemma_delivery(grown, rest, socket, page);
        assert(grown + rest.flatten() =~= held + chunks.flatten());
    }
}

/// Fragmentation does not matter. Bytes that arrive in non-empty chunks,
/// one per call, on an open socket, are in the end treated as if they had
/// arrived at once, provided that no call before the last one judged what it
/// held complete or malformed: the last call has the outcome of the single
/// call (status, whether a command is handed over, which command), leaves the
/// same buffer and the same socket.
pub proof fn law_chunks_as_one(chunks: Seq<Seq<u8>>, socket: TcpView, page: Seq<u8>)
    requires
        chunks.len() >= 1,
        all_filled(chunks),
        chunks.flatten().len() <= CAPACITY,
        waits_between(Seq::empty(), chunks),
        socket.state.is_open(),
        socket.rx.len() == 0,
    ensures
        delivered(Seq::empty(), chunks, socket, page) == step(
            Seq::empty(),
            arrival(socket, chunks.flatten()),
            page,
        ),
{
    let whole = chunks.flatten();
    lemma_filled_length(chunks);
    lemma_delivery(Seq::empty(), chunks, socket, page);
    assert(Seq::<u8>::empty() + whole =~= whole);
    let arrived = arrival(socket, whole);
    let count = intake(0, whole.len());
    assert(count == whole.len());
    assert(Seq::<u8>::empty() + whole.take(count as int) =~= whole);
    assert(arrived.drained(count).rx =~= socket.rx);
    assert(arrived.drained(count) == socket);
}

/// However one request is cut into non-empty chunks that arrive one per call
/// on an open socket, the last call does what a single call does when the
/// whole request arrives at once, and it ends the transaction: nothing is
/// held afterwards.
pub proof fn law_fragmentation_invariant(
    request: Seq<u8>,
    chunks: Seq<Seq<u8>>,
    socket: TcpView,
    page: Seq<u8>,
)
    requires
        is_single_request(request),
        chunks.len() >= 1,
        all_filled(chunks),
        chunks.flatten() == request,
        socket.state.is_open(),
        socket.rx.len() == 0,
    ensures
        delivered(Seq::empty(), chunks, socket, page) == step(
            Seq::empty(),
            arrival(socket, request),
            page,
        ),
        delivered(Seq::empty(), chunks, socket, page).received == Seq::<u8>::empty(),
        !(delivered(Seq::empty(), chunks, socket, page).outcome is Accumulating),
{
    assert forall|k: int| 0 < k < chunks.len() implies verdict_on(
        Seq::<u8>::empty() + #[trigger] joined(chunks, k),
    ) is Incomplete by {
        lemma_joined_begins(chunks, k);
        assert(Seq::<u8>::empty() + joined(chunks, k) =~= joined(chunks, k));
        assert(joined(chunks, k) == request.take(joined(chunks, k).len() as int));
    }
    law_chunks_as_one(chunks, socket, page);
    let arrived = arrival(socket, request);
    let count = intake(0, request.len());
    assert(Seq::<u8>::empty() + request.take(count as int) =~= request);
}

/// Until the last chunk has arrived, a request that is cut into chunks only
/// accumulates: a proper beginning of it is held, nothing is answered and no
/// command is handed over.
pub proof fn law_partial_delivery_waits(
    request: Seq<u8>,
    held: int,
    chunk: Seq<u8>,
    socket: TcpView,
    page: Seq<u8>,
)
    requires
        is_single_request(request),
        0 <= held,
        0 < chunk.len(),
        held + chunk.len() < request.len(),
        request.subrange(held, held + chunk.len()) == chunk,
        socket.state.is_open(),
        socket.rx.len() == 0,
    ensures
        step(request.take(held), arrival(socket, chunk), page) == (Step {
            outcome: Outcome::Accumulating,
            received: request.take(held + chunk.len()),
            socket,
        }),
{
    let before = request.take(held);
    let count = intake(before.len(), chunk.len());
    assert(count == chunk.len());
    assert(chunk.take(count as int) =~= chunk);
    assert(before + chunk =~= request.take(held + chunk.len()));
    let arrived = arrival(socket, chunk);
    assert(arrived.drained(count).rx =~= socket.rx);
    assert(arrived.drained(count) == socket);
}

} // verus!
