//! Supervision of the wireless link.
//!
//! The endpoint serves nothing while the link is down. The supervisor is
//! asked once before every pass over the sockets, and again after every
//! action it orders, until it lets the pass proceed. When it first sees the
//! link down it orders the sockets reset, so that no half-received request
//! and no stale lease survive the outage; after that it orders one connection
//! attempt after the other, at once and without limit, until the link is up.

use vstd::prelude::*;
use smoltcp::iface::{SocketHandle, SocketSet};
use crate::pool::{
    aborted_all, all_tcp, lemma_aborted_all_keeps_kinds, lemma_aborted_all_keeps_others,
    TcpConnectionPool,
};
use crate::sockets::{dhcp_reset, dhcp_view, holds_dhcp, socket_table, with_dhcp};

verus! {

/// What the supervisor knows of the link between two questions.
#[derive(Clone, Copy, Debug, PartialEq, Eq, Structural)]
pub enum Supervisor {
    /// The link was up when last asked.
    Linked,
    /// The link was down when last asked, and the sockets have been reset.
    Reconnecting,
}

/// What the supervisor orders.
#[derive(Clone, Copy, Debug, PartialEq, Eq, Structural)]
pub enum LinkAction {
    /// The link is up: go on with the pass over the sockets.
    Proceed,
    /// The link has just been found down: reset the DHCP client and every
    /// connection, then ask again.
    Reset,
    /// The link is still down: try to connect, whatever the attempt
    /// returns, then ask again.
    Connect,
}

/// Whether the driver's answer says that the link is up. An answer of "not
/// connected" and a failed query both count as down.
pub open spec fn link_is_up(report: Option<bool>) -> bool {
    report == Some(true)
}

/// The supervisor's next state and order, from its state and the driver's
/// answer.
pub open spec fn supervised(state: Supervisor, report: Option<bool>) -> (Supervisor, LinkAction) {
    if link_is_up(report) {
        (Supervisor::Linked, LinkAction::Proceed)
    } else {
        match state {
            Supervisor::Linked => (Supervisor::Reconnecting, LinkAction::Reset),
            Supervisor::Reconnecting => (Supervisor::Reconnecting, LinkAction::Connect),
        }
    }
}

/// Decides what to do about the link. `report` is the driver's answer to
/// the question whether the link is up, `None` where the query failed.
pub fn supervise(state: Supervisor, report: Option<bool>) -> (next: (Supervisor, LinkAction))
    ensures
        next == supervised(state, report),
{
    let up = match report {
        Some(up) => up,
        None => false,
    };
    if up {
        (Supervisor::Linked, LinkAction::Proceed)
    } else {
        match state {
            Supervisor::Linked => (Supervisor::Reconnecting, LinkAction::Reset),
            Supervisor::Reconnecting => (Supervisor::Reconnecting, LinkAction::Connect),
        }
    }
}

/// The pass proceeds exactly when the link is up; the sockets are reset
/// exactly when the link is found down after it was up, so once for every
/// loss; and while the link stays down every further answer orders another
/// attempt.
pub proof fn law_supervision(state: Supervisor, report: Option<bool>)
    ensures
        supervised(state, report).1 == LinkAction::Proceed <==> link_is_up(report),
        supervised(state, report).1 == LinkAction::Reset <==> state == Supervisor::Linked
            && !link_is_up(report),
        supervised(state, report).1 == LinkAction::Connect <==> state == Supervisor::Reconnecting
            && !link_is_up(report),
        supervised(state, report).0 == Supervisor::Linked <==> link_is_up(report),
{
}

/// Carries out [`LinkAction::Reset`]: restarts the DHCP client at `dhcp`
/// and resets every connection of `pool`.
///
/// Afterwards the client holds no lease and is back in discovery, the loss
/// of a lease it held is pending as an event, every connection's socket is
/// aborted and every buffer is empty.
pub fn reset_sockets(dhcp: SocketHandle, pool: &mut TcpConnectionPool, sockets: &mut SocketSet)
    requires
        holds_dhcp(old(sockets), dhcp),
        all_tcp(socket_table(old(sockets)), old(pool).handles()),
    ensures
        final(pool).handles() == old(pool).handles(),
        final(pool).received() == Seq::new(old(pool).handles().len(), |i: int| Seq::<u8>::empty()),
        final(pool).storage() == old(pool).storage(),
        socket_table(final(sockets)) == aborted_all(
            with_dhcp(
                socket_table(old(sockets)),
                dhcp,
                dhcp_view(old(sockets), dhcp).restarted(),
            ),
            old(pool).handles(),
            old(pool).handles().len(),
        ),
        holds_dhcp(final(sockets), dhcp),
        dhcp_view(final(sockets), dhcp) == dhcp_view(old(sockets), dhcp).restarted(),
        all_tcp(socket_table(final(sockets)), final(pool).handles()),
{
    let ghost handles = pool.handles();
    let ghost restarted = with_dhcp(
        socket_table(sockets),
        dhcp,
        dhcp_view(sockets, dhcp).restarted(),
    );
    dhcp_reset(sockets, dhcp);
    proof {
        assert(all_tcp(restarted, handles)) by {
            assert forall|i: int| 0 <= i < handles.len() implies restarted.dom().contains(
                #[trigger] handles[i],
            ) && restarted[handles[i]] is Tcp by {
                assert(handles[i] != dhcp);
            }
        }
    }
    pool.reset(sockets);
    proof {
        lemma_aborted_all_keeps_kinds(restarted, handles, handles.len());
        lemma_aborted_all_keeps_others(restarted, handles, handles.len(), dhcp);
    }
}

} // verus!
