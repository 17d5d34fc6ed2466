//! The protocol stack's socket set, as far as the endpoint reads and drives it.
//!
//! `smoltcp` owns the sockets. Verus sees none of their fields, so what a
//! socket set holds is given a name, [`socket_table`], and every call into the
//! stack is made by a short function whose contract says, over that name, what
//! the call does. Those contracts are taken from the stack's source and are
//! believed, not proved.

use vstd::prelude::*;
use smoltcp::iface::{SocketHandle, SocketSet};
use smoltcp::socket::{dhcpv4, tcp};
use crate::dhcp::{DhcpEvent, Ipv4Address, Ipv4Cidr};

verus! {

/// `smoltcp::iface::SocketSet`, opaque to the verifier.
#[verifier::external_type_specification]
#[verifier::external_body]
pub struct ExSocketSet<'a>(SocketSet<'a>);

/// `smoltcp::iface::SocketHandle`, opaque to the verifier.
#[verifier::external_type_specification]
#[verifier::external_body]
pub struct ExSocketHandle(SocketHandle);

/// The states of a TCP connection, after RFC 793.
#[derive(Clone, Copy, Debug, PartialEq, Eq, Structural)]
pub enum TcpState {
    Closed,
    Listen,
    SynSent,
    SynReceived,
    Established,
    FinWait1,
    FinWait2,
    CloseWait,
    Closing,
    LastAck,
    TimeWait,
}

impl TcpState {
    /// The socket handles packets: every state but `Closed` and `TimeWait`.
    pub open spec fn is_open(self) -> bool {
        self != TcpState::Closed && self != TcpState::TimeWait
    }

    /// The transmit half is open: `Established` and `CloseWait`.
    pub open spec fn may_send(self) -> bool {
        self == TcpState::Established || self == TcpState::CloseWait
    }

    /// The state after the transmit half has been closed.
    pub open spec fn after_close(self) -> TcpState {
        match self {
            TcpState::Listen | TcpState::SynSent => TcpState::Closed,
            TcpState::SynReceived | TcpState::Established => TcpState::FinWait1,
            TcpState::CloseWait => TcpState::LastAck,
            _ => self,
        }
    }
}

/// What the endpoint reads of one TCP socket.
pub struct TcpView {
    pub state: TcpState,
    /// The port of the endpoint on which the socket was last told to listen;
    /// 0 if it has not been told since it was last cleared.
    pub listen_port: u16,
    /// Bytes received and not yet taken out, oldest first.
    pub rx: Seq<u8>,
    /// Bytes queued for sending, oldest first.
    pub tx: Seq<u8>,
    /// How many bytes the send queue can hold.
    pub tx_capacity: nat,
}

impl TcpView {
    /// How many more bytes the send queue takes.
    pub open spec fn tx_room(self) -> nat {
        if self.tx_capacity >= self.tx.len() {
            (self.tx_capacity - self.tx.len()) as nat
        } else {
            0
        }
    }

    /// The socket after a successful `listen` on `port` from a state that is
    /// not open: both queues empty, state `Listen`, listening on `port`.
    pub open spec fn listening(self, port: u16) -> TcpView {
        TcpView {
            state: TcpState::Listen,
            listen_port: port,
            rx: Seq::empty(),
            tx: Seq::empty(),
            ..self
        }
    }

    /// The socket after its `count` oldest received bytes were taken out.
    pub open spec fn drained(self, count: nat) -> TcpView {
        TcpView { rx: self.rx.skip(count as int), ..self }
    }

    /// How many bytes of `data` the send queue accepts.
    pub open spec fn accepted(self, data: Seq<u8>) -> nat {
        if data.len() <= self.tx_room() {
            data.len()
        } else {
            self.tx_room()
        }
    }

    /// The socket after `data` was offered to its send queue.
    pub open spec fn sent(self, data: Seq<u8>) -> TcpView {
        TcpView { tx: self.tx + data.take(self.accepted(data) as int), ..self }
    }

    /// The socket after its transmit half was closed.
    pub open spec fn closed(self) -> TcpView {
        TcpView { state: self.state.after_close(), ..self }
    }

    /// The socket after it was aborted: state `Closed`, queues untouched.
    pub open spec fn aborted(self) -> TcpView {
        TcpView { state: TcpState::Closed, ..self }
    }
}

/// A DHCP lease: the leased address and the router, if the lease names one.
pub struct Lease {
    pub address: Ipv4Cidr,
    pub router: Option<Ipv4Address>,
}

/// What the endpoint reads of one DHCPv4 client socket.
pub struct DhcpView {
    /// The lease that the client holds, if it holds one.
    pub lease: Option<Lease>,
    /// Whether the client's configuration has changed since the client was
    /// last asked for it.
    pub changed: bool,
}

impl DhcpView {
    /// The event that the client reports when it is asked now: none unless
    /// its configuration has changed; else the lease it holds, or the loss of
    /// the lease if it holds none.
    pub open spec fn pending(self) -> Option<DhcpEvent> {
        if !self.changed {
            None
        } else {
            match self.lease {
                Some(lease) => Some(
                    DhcpEvent::Configured { address: lease.address, router: lease.router },
                ),
                None => Some(DhcpEvent::Deconfigured),
            }
        }
    }

    /// The client after it was asked: the change is taken note of.
    pub open spec fn polled(self) -> DhcpView {
        DhcpView { changed: false, ..self }
    }

    /// The client after a reset: it holds no lease and starts discovery
    /// anew; if it held a lease, the loss is a change to report.
    pub open spec fn restarted(self) -> DhcpView {
        DhcpView { lease: None, changed: self.changed || self.lease is Some }
    }
}

/// What the endpoint reads of one socket of the set.
pub enum SocketView {
    Tcp(TcpView),
    Dhcp(DhcpView),
    /// A socket of any other kind.
    Other,
}

/// The sockets that `sockets` holds, by handle.
pub uninterp spec fn socket_table(sockets: &SocketSet) -> Map<SocketHandle, SocketView>;

/// `handle` names a TCP socket of `sockets`.
pub open spec fn holds_tcp(sockets: &SocketSet, handle: SocketHandle) -> bool {
    socket_table(sockets).dom().contains(handle) && socket_table(sockets)[handle] is Tcp
}

/// `handle` names a DHCPv4 socket of `sockets`.
pub open spec fn holds_dhcp(sockets: &SocketSet, handle: SocketHandle) -> bool {
    socket_table(sockets).dom().contains(handle) && socket_table(sockets)[handle] is Dhcp
}

/// The TCP socket that `handle` names.
pub open spec fn tcp_view(sockets: &SocketSet, handle: SocketHandle) -> TcpView
    recommends
        holds_tcp(sockets, handle),
{
    socket_table(sockets)[handle]->Tcp_0
}

/// The DHCPv4 client socket that `handle` names.
pub open spec fn dhcp_view(sockets: &SocketSet, handle: SocketHandle) -> DhcpView
    recommends
        holds_dhcp(sockets, handle),
{
    socket_table(sockets)[handle]->Dhcp_0
}

/// `table` with the DHCPv4 client socket at `handle` replaced by `socket`.
pub open spec fn with_dhcp(
    table: Map<SocketHandle, SocketView>,
    handle: SocketHandle,
    socket: DhcpView,
) -> Map<SocketHandle, SocketView> {
    table.insert(handle, SocketView::Dhcp(socket))
}

/// `table` with the TCP socket at `handle` replaced by `socket`.
pub open spec fn with_tcp(
    table: Map<SocketHandle, SocketView>,
    handle: SocketHandle,
    socket: TcpView,
) -> Map<SocketHandle, SocketView> {
    table.insert(handle, SocketView::Tcp(socket))
}

/// `tcp::Socket::is_open` on the socket that `handle` names.
///
/// Claims that the result is true in every state but `Closed` and
/// `TimeWait`.
#[verifier::external_body]
pub(crate) fn tcp_is_open(sockets: &SocketSet, handle: SocketHandle) -> (open: bool)
    requires
        holds_tcp(sockets, handle),
    ensures
        open == tcp_view(sockets, handle).state.is_open(),
{
    sockets.get::<tcp::Socket>(handle).is_open()
}

/// `tcp::Socket::listen` on the socket that `handle` names; reports whether
/// it returned `Ok`.
///
/// Claims: a socket that is not open, asked to listen on a nonzero port,
/// accepts, and is then in `Listen` on that port with both queues empty; port
/// 0 is refused; in every other case the socket is left as it was. No other
/// socket changes.
#[verifier::external_body]
pub(crate) fn tcp_listen(sockets: &mut SocketSet, handle: SocketHandle, port: u16) -> (accepted:
    bool)
    requires
        holds_tcp(old(sockets), handle),
    ensures
        !tcp_view(old(sockets), handle).state.is_open() && port != 0 ==> accepted,
        port == 0 ==> !accepted,
        socket_table(final(sockets)) == if accepted && !tcp_view(
            old(sockets),
            handle,
        ).state.is_open() {
            with_tcp(
                socket_table(old(sockets)),
                handle,
                tcp_view(old(sockets), handle).listening(port),
            )
        } else {
            socket_table(old(sockets))
        },
{
    sockets.get_mut::<tcp::Socket>(handle).listen(port).is_ok()
}

/// `tcp::Socket::can_recv` on the socket that `handle` names.
///
/// Claims that the result is true exactly when received bytes are waiting.
#[verifier::external_body]
pub(crate) fn tcp_can_recv(sockets: &SocketSet, handle: SocketHandle) -> (ready: bool)
    requires
        holds_tcp(sockets, handle),
    ensures
        ready == (tcp_view(sockets, handle).rx.len() > 0),
{
    sockets.get::<tcp::Socket>(handle).can_recv()
}

/// `tcp::Socket::recv_slice` on the socket that `handle` names, into
/// `buffer` from index `start` on; gives the number of bytes taken, or `None`
/// where the call returned an error.
///
/// Claims: on success as many of the oldest waiting bytes as fit are moved,
/// in order, to `buffer[start..]`, and the rest of `buffer` keeps its
/// content; an error comes only when no byte is waiting and changes nothing.
/// No other socket changes. The call does not panic on a handle of a TCP
/// socket, whatever the socket's state.
#[verifier::external_body]
pub(crate) fn tcp_recv<const N: usize>(
    sockets: &mut SocketSet,
    handle: SocketHandle,
    buffer: &mut [u8; N],
    start: usize,
) -> (taken: Option<usize>)
    requires
        holds_tcp(old(sockets), handle),
        start <= N,
    ensures
        match taken {
            Some(count) => {
                &&& count <= N - start
                &&& count <= tcp_view(old(sockets), handle).rx.len()
                &&& count == N - start || count == tcp_view(old(sockets), handle).rx.len()
                &&& final(buffer)@ == old(buffer)@.take(start as int) + tcp_view(
                    old(sockets),
                    handle,
                ).rx.take(count as int) + old(buffer)@.skip(start + count)
                &&& socket_table(final(sockets)) == with_tcp(
                    socket_table(old(sockets)),
                    handle,
                    tcp_view(old(sockets), handle).drained(count as nat),
                )
            },
            None => {
                &&& tcp_view(old(sockets), handle).rx.len() == 0
                &&& final(buffer)@ == old(buffer)@
                &&& socket_table(final(sockets)) == socket_table(old(sockets))
            },
        },
    no_unwind
{
    sockets.get_mut::<tcp::Socket>(handle).recv_slice(&mut buffer[start..]).ok()
}

/// `tcp::Socket::send_slice` on the socket that `handle` names; gives the
/// number of bytes queued, or `None` where the call returned an error.
///
/// Claims: the call fails exactly when the transmit half is not open, and
/// then changes nothing; otherwise it appends to the send queue as long a
/// prefix of `data` as the queue has room for. No other socket changes.
#[verifier::external_body]
pub(crate) fn tcp_send(sockets: &mut SocketSet, handle: SocketHandle, data: &[u8]) -> (queued:
    Option<usize>)
    requires
        holds_tcp(old(sockets), handle),
    ensures
        queued is Some == tcp_view(old(sockets), handle).state.may_send(),
        queued matches Some(count) ==> count == tcp_view(old(sockets), handle).accepted(data@),
        socket_table(final(sockets)) == if queued is Some {
            with_tcp(socket_table(old(sockets)), handle, tcp_view(old(sockets), handle).sent(data@))
        } else {
            socket_table(old(sockets))
        },
{
    sockets.get_mut::<tcp::Socket>(handle).send_slice(data).ok()
}

/// `tcp::Socket::close` on the socket that `handle` names.
///
/// Claims that only the state changes, as [`TcpState::after_close`] says:
/// the queues and the listen port stay. No other socket changes.
#[verifier::external_body]
pub(crate) fn tcp_close(sockets: &mut SocketSet, handle: SocketHandle)
    requires
        holds_tcp(old(sockets), handle),
    ensures
        socket_table(final(sockets)) == with_tcp(
            socket_table(old(sockets)),
            handle,
            tcp_view(old(sockets), handle).closed(),
        ),
{
    sockets.get_mut::<tcp::Socket>(handle).close();
}

/// `tcp::Socket::abort` on the socket that `handle` names.
///
/// Claims that the state becomes `Closed` and that the queues and the
/// listen port stay. No other socket changes.
#[verifier::external_body]
pub(crate) fn tcp_abort(sockets: &mut SocketSet, handle: SocketHandle)
    requires
        holds_tcp(old(sockets), handle),
    ensures
        socket_table(final(sockets)) == with_tcp(
            socket_table(old(sockets)),
            handle,
            tcp_view(old(sockets), handle).aborted(),
        ),
{
    sockets.get_mut::<tcp::Socket>(handle).abort();
}

/// `dhcpv4::Socket::reset` on the socket that `handle` names.
///
/// Claims that the client drops its lease and is back in discovery, and that
/// the loss of a lease it held is marked as a change to report. No other
/// socket changes.
#[verifier::external_body]
pub(crate) fn dhcp_reset(sockets: &mut SocketSet, handle: SocketHandle)
    requires
        holds_dhcp(old(sockets), handle),
    ensures
        socket_table(final(sockets)) == with_dhcp(
            socket_table(old(sockets)),
            handle,
            dhcp_view(old(sockets), handle).restarted(),
        ),
{
    sockets.get_mut::<dhcpv4::Socket>(handle).reset();
}

/// `dhcpv4::Socket::poll` on the socket that `handle` names, with the event
/// copied into the library's own type.
///
/// Claims that the client reports nothing unless its configuration has
/// changed since it was last asked; that it then reports the lease it holds,
/// or the loss of the lease if it holds none; and that asking takes note of
/// the change, so that the same event is not reported again. No other socket
/// changes.
#[verifier::external_body]
pub(crate) fn dhcp_poll(sockets: &mut SocketSet, handle: SocketHandle) -> (event: Option<
    DhcpEvent,
>)
    requires
        holds_dhcp(old(sockets), handle),
    ensures
        event == dhcp_view(old(sockets), handle).pending(),
        socket_table(final(sockets)) == with_dhcp(
            socket_table(old(sockets)),
            handle,
            dhcp_view(old(sockets), handle).polled(),
        ),
{
    match sockets.get_mut::<dhcpv4::Socket>(handle).poll() {
        None => None,
        Some(dhcpv4::Event::Deconfigured) => Some(DhcpEvent::Deconfigured),
        Some(dhcpv4::Event::Configured(lease)) => Some(DhcpEvent::Configured {
            address: Ipv4Cidr {
                address: Ipv4Address::from_octets(lease.address.address().octets()),
                prefix_len: lease.address.prefix_len(),
            },
            router: lease.router.map(|router| Ipv4Address::from_octets(router.octets())),
        }),
    }
}

} // verus!
