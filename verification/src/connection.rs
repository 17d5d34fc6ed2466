//! One HTTP connection: a listening TCP socket and the bytes of the request
//! that is being assembled from it.
//!
//! A request may arrive in any number of segments. The connection appends
//! what the socket hands over to a fixed buffer and answers only once the
//! head and the whole declared body are there. [`step`] says, as a function of
//! the bytes held, the socket and the page, what one call of
//! [`TcpConnection::handler`] does.

use vstd::prelude::*;
use vstd::slice::slice_subrange;
use smoltcp::iface::{SocketHandle, SocketSet};
use crate::command::{classify, command_of, Command};
use crate::command::{law_vocabulary, PinLevel, LED_OFF, LED_ON};
use crate::request::{
    body_of, body_slice, examine, lemma_body_within, parsed_head, verdict_on, HeadStatusView,
    Request, RequestHeadView, Verdict, MAX_HEADERS, ROOT,
};
use crate::sockets::{
    holds_tcp, socket_table, tcp_abort, tcp_can_recv, tcp_close, tcp_is_open, tcp_listen, tcp_recv,
    tcp_send, tcp_view, with_tcp, SocketView, TcpView,
};

verus! {

/// Size of the buffer in which a request is assembled.
pub const CAPACITY: usize = 1024;

/// The TCP port on which connections listen.
pub const HTTP_PORT: u16 = 80;

/// Milliseconds without an inbound packet after which the stack is to drop
/// a connection. The sockets are to be created with this timeout.
pub const IDLE_TIMEOUT_MILLIS: u64 = 500;

/// Milliseconds between the keep-alive packets that the stack is to send on
/// an idle connection. The sockets are to be created with this interval.
pub const KEEP_ALIVE_MILLIS: u64 = 100;

/// The status line `HTTP/1.0 200 OK`, with the blank line that ends the head.
pub const OK_LINE: [u8; 19] = [
    0x48, 0x54, 0x54, 0x50, 0x2f, 0x31, 0x2e, 0x30, 0x20, 0x32, 0x30, 0x30, 0x20, 0x4f, 0x4b, 0x0d,
    0x0a, 0x0d, 0x0a,
];

/// The status line `HTTP/1.0 404 Not Found`, with the blank line that ends
/// the head.
pub const NOT_FOUND_LINE: [u8; 26] = [
    0x48, 0x54, 0x54, 0x50, 0x2f, 0x31, 0x2e, 0x30, 0x20, 0x34, 0x30, 0x34, 0x20, 0x4e, 0x6f, 0x74,
    0x20, 0x46, 0x6f, 0x75, 0x6e, 0x64, 0x0d, 0x0a, 0x0d, 0x0a,
];

/// The status of an answer.
#[derive(Clone, Copy, Debug, PartialEq, Eq, Structural)]
pub enum Status {
    /// 200
    Success,
    /// 404
    NotFound,
}

/// Why a transaction was abandoned.
#[derive(Clone, Copy, Debug, PartialEq, Eq, Structural)]
pub enum AbortReason {
    /// The bytes received cannot begin a request.
    Malformed,
    /// The buffer is full and the request is still incomplete.
    BufferFull,
    /// The request is complete but the socket's transmit half is not open.
    NotWritable,
}

/// What one call of [`TcpConnection::handler`] did.
#[derive(Clone, Copy, Debug, PartialEq, Eq, Structural)]
pub enum Outcome {
    /// The socket was not open. It listens now, and the buffer is empty.
    Listening,
    /// The socket is open and has nothing to hand over.
    Idle,
    /// Bytes were appended; the request is not complete yet.
    Accumulating,
    /// A complete request was answered and the transmit half closed.
    /// `command` is what a POST to `/` asked for; it is to be carried out
    /// once.
    Responded { status: Status, command: Option<Command> },
    /// The transaction was abandoned: the socket was aborted and the buffer
    /// emptied.
    Aborted(AbortReason),
}

/// The status with which `request` is answered.
pub open spec fn status_of(request: Request) -> Status {
    if request.found {
        Status::Success
    } else {
        Status::NotFound
    }
}

/// The bytes of the status line for `status`.
pub open spec fn status_line(status: Status) -> Seq<u8> {
    match status {
        Status::Success => OK_LINE@,
        Status::NotFound => NOT_FOUND_LINE@,
    }
}

/// The command that `request` carries in its body among the `received`
/// bytes: only a POST to `/` carries one.
pub open spec fn command_for(request: Request, received: Seq<u8>) -> Option<Command> {
    if request.found && request.post {
        Some(command_of(body_of(received, request)))
    } else {
        None
    }
}

/// The socket after `request` was answered on it: the status line queued,
/// then `page` if the path was found, then the transmit half closed.
pub open spec fn answered(socket: TcpView, request: Request, page: Seq<u8>) -> TcpView {
    let lined = socket.sent(status_line(status_of(request)));
    if request.found {
        lined.sent(page).closed()
    } else {
        lined.closed()
    }
}

/// How many waiting bytes a connection that holds `held` bytes takes from a
/// socket with `waiting` bytes: all that fit in the buffer.
pub open spec fn intake(held: nat, waiting: nat) -> nat {
    if held >= CAPACITY {
        0
    } else if waiting <= CAPACITY - held {
        waiting
    } else {
        (CAPACITY - held) as nat
    }
}

/// The effect of one call of [`TcpConnection::handler`].
pub struct Step {
    pub outcome: Outcome,
    /// The bytes that the connection holds afterwards.
    pub received: Seq<u8>,
    /// The socket afterwards.
    pub socket: TcpView,
}

/// What is done once `grown` bytes are held and `socket` has handed them
/// over.
pub open spec fn settle(grown: Seq<u8>, socket: TcpView, page: Seq<u8>) -> Step {
    match verdict_on(grown) {
        Verdict::Incomplete => if grown.len() >= CAPACITY {
            Step {
                outcome: Outcome::Aborted(AbortReason::BufferFull),
                received: Seq::empty(),
                socket: socket.aborted(),
            }
        } else {
            Step { outcome: Outcome::Accumulating, received: grown, socket }
        },
        Verdict::Malformed => Step {
            outcome: Outcome::Aborted(AbortReason::Malformed),
            received: Seq::empty(),
            socket: socket.aborted(),
        },
        Verdict::Complete(request) => if socket.state.may_send() {
            Step {
                outcome: Outcome::Responded {
                    status: status_of(request),
                    command: command_for(request, grown),
                },
                received: Seq::empty(),
                socket: answered(socket, request, page),
            }
        } else {
            Step {
                outcome: Outcome::Aborted(AbortReason::NotWritable),
                received: Seq::empty(),
                socket: socket.aborted(),
            }
        },
    }
}

/// What one call of the handler does to a connection that holds `received`
/// bytes, on `socket`, with `page` as the page to serve.
pub open spec fn step(received: Seq<u8>, socket: TcpView, page: Seq<u8>) -> Step {
    if !socket.state.is_open() {
        Step {
            outcome: Outcome::Listening,
            received: Seq::empty(),
            socket: socket.listening(HTTP_PORT),
        }
    } else if socket.rx.len() == 0 {
        Step { outcome: Outcome::Idle, received, socket }
    } else {
        let count = intake(received.len(), socket.rx.len());
        settle(received + socket.rx.take(count as int), socket.drained(count), page)
    }
}

/// The buffer of a connection after one call of the handler: what the call
/// took from the socket stands behind the `held` bytes that were there, and
/// every other byte is as it was.
pub open spec fn stored(storage: Seq<u8>, held: nat, socket: TcpView) -> Seq<u8> {
    if !socket.state.is_open() || socket.rx.len() == 0 {
        storage
    } else {
        let count = intake(held, socket.rx.len());
        storage.take(held as int) + socket.rx.take(count as int) + storage.skip(
            (held + count) as int,
        )
    }
}

/// A connection: the handle of its socket, and the request bytes received so
/// far.
pub struct TcpConnection {
    socket_handle: SocketHandle,
    buffer: [u8; 1024],
    buffer_index: usize,
}

impl TcpConnection {
    #[verifier::type_invariant]
    spec fn well_formed(self) -> bool {
        self.buffer_index <= CAPACITY
    }

    /// The handle of the socket that this connection serves.
    pub closed spec fn handle(self) -> SocketHandle {
        self.socket_handle
    }

    /// The request bytes received and not yet answered.
    pub closed spec fn received(self) -> Seq<u8> {
        self.buffer@.take(self.buffer_index as int)
    }

    /// All bytes of the buffer: those received and not yet answered, then
    /// what earlier transactions or the constructor left behind them.
    pub closed spec fn storage(self) -> Seq<u8> {
        self.buffer@
    }

    /// A connection on the socket `socket_handle`, with nothing received and
    /// a buffer of zeros.
    pub fn new(socket_handle: SocketHandle) -> (connection: TcpConnection)
        ensures
            connection.handle() == socket_handle,
            connection.received() == Seq::<u8>::empty(),
            connection.storage() == Seq::new(CAPACITY as nat, |i: int| 0u8),
    {
        let connection = TcpConnection { socket_handle, buffer: [0; 1024], buffer_index: 0 };
        proof {
            assert(connection.buffer@ =~= Seq::new(CAPACITY as nat, |i: int| 0u8));
        }
        connection
    }

    /// The handle of the socket that this connection serves.
    pub fn socket_handle(&self) -> (handle: SocketHandle)
        ensures
            handle == self.handle(),
    {
        self.socket_handle
    }

    /// Number of request bytes received and not yet answered.
    pub fn buffered(&self) -> (count: usize)
        ensures
            count == self.received().len(),
            count <= CAPACITY,
            self.storage().len() == CAPACITY,
            self.received() == self.storage().take(count as int),
    {
        proof {
            use_type_invariant(self);
        }
        self.buffer_index
    }

    /// Abandons whatever is in progress: aborts the socket and forgets the
    /// bytes received.
    pub fn reset(&mut self, sockets: &mut SocketSet)
        requires
            holds_tcp(old(sockets), old(self).handle()),
        ensures
            final(self).handle() == old(self).handle(),
            final(self).received() == Seq::<u8>::empty(),
            final(self).storage() == old(self).storage(),
            socket_table(final(sockets)) == with_tcp(
                socket_table(old(sockets)),
                old(self).handle(),
                tcp_view(old(sockets), old(self).handle()).aborted(),
            ),
    {
        tcp_abort(sockets, self.socket_handle);
        self.buffer_index = 0;
    }

    /// Serves the connection once: opens the socket for listening if it is
    /// not open, takes what it has received, and answers the request if it is
    /// complete.
    pub fn handler(&mut self, sockets: &mut SocketSet, page: &[u8]) -> (outcome: Outcome)
        requires
            holds_tcp(old(sockets), old(self).handle()),
        ensures
            final(self).handle() == old(self).handle(),
            final(self).storage() == stored(
                old(self).storage(),
                old(self).received().len(),
                tcp_view(old(sockets), old(self).handle()),
            ),
            outcome == step(
                old(self).received(),
                tcp_view(old(sockets), old(self).handle()),
                page@,
            ).outcome,
            final(self).received() == step(
                old(self).received(),
                tcp_view(old(sockets), old(self).handle()),
                page@,
            ).received,
            socket_table(final(sockets)) == with_tcp(
                socket_table(old(sockets)),
                old(self).handle(),
                step(
                    old(self).received(),
                    tcp_view(old(sockets), old(self).handle()),
                    page@,
                ).socket,
            ),
    {
        proof {
            use_type_invariant(&*self);
        }
        let handle = self.socket_handle;
        let ghost before = socket_table(sockets);
        let ghost socket = tcp_view(sockets, handle);
        let ghost held = self.received();
        if !tcp_is_open(sockets, handle) {
            self.buffer_index = 0;
            tcp_listen(sockets, handle, HTTP_PORT);
            return Outcome::Listening;
        }
        if !tcp_can_recv(sockets, handle) {
            proof {
                assert(with_tcp(before, handle, socket) =~= before);
            }
            return Outcome::Idle;
        }
        let start = self.buffer_index;
        let count = match tcp_recv(sockets, handle, &mut self.buffer, start) {
            Some(count) => count,
            None => 0,
        };
        let grown = start + count;
        let ghost bytes = held + socket.rx.take(count as int);
        let ghost drained = socket.drained(count as nat);
        proof {
            assert(count == intake(held.len(), socket.rx.len()));
            assert(self.buffer@.take(grown as int) =~= bytes);
            assert(socket_table(sockets) == with_tcp(before, handle, drained));
        }
        let verdict = examine(slice_subrange(self.buffer.as_slice(), 0, grown));
        match verdict {
            Verdict::Incomplete => {
                if grown >= CAPACITY {
                    self.reset(sockets);
                    proof {
                        lemma_replaced_again(before, handle, drained, drained.aborted());
                    }
                    Outcome::Aborted(AbortReason::BufferFull)
                } else {
                    self.buffer_index = grown;
                    Outcome::Accumulating
                }
            },
            Verdict::Malformed => {
                self.reset(sockets);
                proof {
                    lemma_replaced_again(before, handle, drained, drained.aborted());
                }
                Outcome::Aborted(AbortReason::Malformed)
            },
            Verdict::Complete(request) => {
                let found = request.found;
                let line: &[u8] = if found {
                    OK_LINE.as_slice()
                } else {
                    NOT_FOUND_LINE.as_slice()
                };
                if tcp_send(sockets, handle, line).is_none() {
                    self.reset(sockets);
                    proof {
                        lemma_replaced_again(before, handle, drained, drained.aborted());
                    }
                    return Outcome::Aborted(AbortReason::NotWritable);
                }
                if found {
                    tcp_send(sockets, handle, page);
                }
                let command = if found && request.post {
                    proof {
                        lemma_body_within(bytes.len(), parsed_head(bytes, MAX_HEADERS as nat));
                    }
                    let received = slice_subrange(self.buffer.as_slice(), 0, grown);
                    Some(classify(body_slice(received, request)))
                } else {
                    None
                };
                self.buffer_index = 0;
                tcp_close(sockets, handle);
                proof {
                    let closed = answered(drained, request, page@);
                    lemma_replaced_again(before, handle, drained, closed);
                }
                Outcome::Responded {
                    status: if found {
                        Status::Success
                    } else {
                        Status::NotFound
                    },
                    command,
                }
            },
        }
    }
}

/// Replacing the socket at a handle twice is replacing it by the second.
proof fn lemma_replaced_again(
    table: Map<SocketHandle, SocketView>,
    handle: SocketHandle,
    first: TcpView,
    second: TcpView,
)
    ensures
        with_tcp(with_tcp(table, handle, first), handle, second) == with_tcp(table, handle, second),
{
    assert(with_tcp(with_tcp(table, handle, first), handle, second) =~= with_tcp(
        table,
        handle,
        second,
    ));
}

/// Every answered request ends its cycle in the same place: nothing is held
/// any more, the transmit half of the socket is closed, and what the socket
/// had received beyond the buffer's room is still waiting.
pub proof fn law_cycle_ends_closed(received: Seq<u8>, socket: TcpView, page: Seq<u8>)
    ensures
        step(received, socket, page).outcome is Responded ==> {
            &&& step(received, socket, page).received == Seq::<u8>::empty()
            &&& !step(received, socket, page).socket.state.may_send()
            &&& step(received, socket, page).socket.state == socket.state.after_close()
        },
{
}

/// Whatever ends a transaction (an answer or an abort) leaves nothing in the
/// buffer, and only an unfinished request leaves bytes there.
pub proof fn law_buffer_emptied(received: Seq<u8>, socket: TcpView, page: Seq<u8>)
    ensures
        step(received, socket, page).outcome is Responded || step(
            received,
            socket,
            page,
        ).outcome is Aborted || step(received, socket, page).outcome is Listening ==> step(
            received,
            socket,
            page,
        ).received == Seq::<u8>::empty(),
        received.len() <= CAPACITY ==> step(received, socket, page).received.len() <= CAPACITY,
{
}

/// Nothing is answered before the request is complete: as long as the bytes
/// held are not judged complete, a call queues nothing for sending and hands
/// over no command, however many calls it takes.
pub proof fn law_silent_until_complete(received: Seq<u8>, socket: TcpView, page: Seq<u8>)
    requires
        socket.state.is_open(),
        !(verdict_on(received + socket.rx.take(
            intake(received.len(), socket.rx.len()) as int,
        )) is Complete),
    ensures
        !(step(received, socket, page).outcome is Responded),
        step(received, socket, page).socket.tx == socket.tx,
{
}

/// A closed socket is opened on port 80, whatever it listened on before.
pub proof fn law_listens_on_http_port(received: Seq<u8>, socket: TcpView, page: Seq<u8>)
    requires
        !socket.state.is_open(),
    ensures
        step(received, socket, page).socket.state == crate::sockets::TcpState::Listen,
        step(received, socket, page).socket.listen_port == 80,
{
}

/// A complete POST to `/` on a writable socket is answered with status 200
/// and hands over exactly one command, the one its body spells: `led=on`
/// sets the pin high, `led=off` sets it low, any other body sets nothing.
pub proof fn law_post_to_root(grown: Seq<u8>, socket: TcpView, page: Seq<u8>, request: Request)
    requires
        verdict_on(grown) == Verdict::Complete(request),
        request.found,
        request.post,
        socket.state.may_send(),
    ensures
        settle(grown, socket, page).outcome == (Outcome::Responded {
            status: Status::Success,
            command: Some(command_of(body_of(grown, request))),
        }),
        body_of(grown, request) == LED_ON@ ==> command_of(
            body_of(grown, request),
        ).level_of() == Some(PinLevel::High),
        body_of(grown, request) == LED_OFF@ ==> command_of(
            body_of(grown, request),
        ).level_of() == Some(PinLevel::Low),
        body_of(grown, request) != LED_ON@ && body_of(grown, request)
            != LED_OFF@ ==> command_of(body_of(grown, request)).level_of() is None,
{
    law_vocabulary(body_of(grown, request));
}

/// A complete request that is no POST to `/` hands over no command: a GET of
/// `/` is answered with status 200, and any request for another path with
/// status 404, whatever its method and body.
pub proof fn law_no_command_elsewhere(
    grown: Seq<u8>,
    socket: TcpView,
    page: Seq<u8>,
    request: Request,
)
    requires
        verdict_on(grown) == Verdict::Complete(request),
        !(request.found && request.post),
        socket.state.may_send(),
    ensures
        settle(grown, socket, page).outcome == (Outcome::Responded {
            status: if request.found {
                Status::Success
            } else {
                Status::NotFound
            },
            command: None,
        }),
{
}

/// A request for a path other than `/` never hands over a command, on any
/// socket: it is answered with status 404 or, where the socket cannot be
/// written, dropped.
pub proof fn law_other_path(
    head: RequestHeadView,
    grown: Seq<u8>,
    socket: TcpView,
    page: Seq<u8>,
)
    requires
        head.path != Some(ROOT@),
        parsed_head(grown, MAX_HEADERS as nat)
            == HeadStatusView::Complete(head),
    ensures
        settle(grown, socket, page).outcome matches Outcome::Responded { status, command }
            ==> status == Status::NotFound && command is None,
        verdict_on(grown) is Complete && socket.state.may_send() ==> settle(
            grown,
            socket,
            page,
        ).outcome == (Outcome::Responded { status: Status::NotFound, command: None }),
{
}

/// After a reset nothing of the interrupted request is left: the next call
/// finds the socket closed, opens it for listening on port 80 with both
/// queues emptied, and the bytes judged from then on are only those that
/// arrive afterwards.
pub proof fn law_reset_leaves_no_residue(socket: TcpView, page: Seq<u8>, later: Seq<u8>)
    requires
        0 < later.len() <= CAPACITY,
    ensures
        step(Seq::empty(), socket.aborted(), page) == (Step {
            outcome: Outcome::Listening,
            received: Seq::empty(),
            socket: socket.listening(HTTP_PORT),
        }),
        socket.listening(HTTP_PORT).listen_port == 80,
        step(
            Seq::empty(),
            TcpView { rx: later, ..socket.listening(HTTP_PORT) },
            page,
        ) == settle(
            later,
            socket.listening(HTTP_PORT),
            page,
        ),
{
    let listening = socket.listening(HTTP_PORT);
    let arrived = TcpView { rx: later, ..listening };
    let count = intake(0, later.len());
    assert(count == later.len());
    assert(Seq::<u8>::empty() + later.take(count as int) =~= later);
    assert(arrived.drained(count).rx =~= listening.rx);
    assert(arrived.drained(count) == listening);
}

} // verus!
