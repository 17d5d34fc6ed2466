//! The fixed table of connections, served in slot order.
//!
//! The table has one slot for each listening socket. Its size is fixed when
//! the endpoint is built, so that serving takes no memory beyond the table.

use vstd::prelude::*;
use smoltcp::iface::{SocketHandle, SocketSet};
use crate::connection::{step, stored, Outcome, TcpConnection, CAPACITY};
use crate::sockets::{socket_table, with_tcp, SocketView};

verus! {

/// Number of connections, and so of listening sockets, of the endpoint.
pub const POOL_SIZE: usize = 3;

/// Every handle of `handles` names a TCP socket in `table`.
pub open spec fn all_tcp(table: Map<SocketHandle, SocketView>, handles: Seq<SocketHandle>) -> bool {
    forall|i: int|
        0 <= i < handles.len() ==> table.dom().contains(#[trigger] handles[i])
            && table[handles[i]] is Tcp
}

/// `table` after the sockets at the first `count` handles were aborted, one
/// after the other.
pub open spec fn aborted_all(
    table: Map<SocketHandle, SocketView>,
    handles: Seq<SocketHandle>,
    count: nat,
) -> Map<SocketHandle, SocketView>
    decreases count,
{
    if count == 0 {
        table
    } else {
        let before = aborted_all(table, handles, (count - 1) as nat);
        let handle = handles[count - 1];
        with_tcp(before, handle, before[handle]->Tcp_0.aborted())
    }
}

/// The state of a pool and its sockets while the pool is served.
pub struct Served {
    /// What each connection served so far did, in slot order.
    pub outcomes: Seq<Outcome>,
    /// The bytes that each connection holds.
    pub received: Seq<Seq<u8>>,
    /// The whole buffer of each connection.
    pub storage: Seq<Seq<u8>>,
    /// The sockets.
    pub table: Map<SocketHandle, SocketView>,
}

/// The state after the connections in the first `count` slots were served,
/// one after the other, each on the socket as the one before left the set.
pub open spec fn served(
    received: Seq<Seq<u8>>,
    storage: Seq<Seq<u8>>,
    handles: Seq<SocketHandle>,
    table: Map<SocketHandle, SocketView>,
    page: Seq<u8>,
    count: nat,
) -> Served
    decreases count,
{
    if count == 0 {
        Served { outcomes: Seq::empty(), received, storage, table }
    } else {
        let before = served(received, storage, handles, table, page, (count - 1) as nat);
        let slot = count - 1;
        let handle = handles[slot];
        let socket = before.table[handle]->Tcp_0;
        let done = step(before.received[slot], socket, page);
        Served {
            outcomes: before.outcomes.push(done.outcome),
            received: before.received.update(slot, done.received),
            storage: before.storage.update(
                slot,
                stored(before.storage[slot], before.received[slot].len(), socket),
            ),
            table: with_tcp(before.table, handle, done.socket),
        }
    }
}

/// Aborting sockets changes no socket's kind.
pub proof fn lemma_aborted_all_keeps_kinds(
    table: Map<SocketHandle, SocketView>,
    handles: Seq<SocketHandle>,
    count: nat,
)
    requires
        all_tcp(table, handles),
        count <= handles.len(),
    ensures
        all_tcp(aborted_all(table, handles, count), handles),
        aborted_all(table, handles, count).dom() == table.dom(),
    decreases count,
{
    if count > 0 {
        lemma_aborted_all_keeps_kinds(table, handles, (count - 1) as nat);
        let before = aborted_all(table, handles, (count - 1) as nat);
        assert(before.dom().contains(handles[count - 1]));
        assert(aborted_all(table, handles, count).dom() =~= table.dom());
    }
}

/// Aborting TCP sockets leaves every socket that is no TCP socket as it was.
pub proof fn lemma_aborted_all_keeps_others(
    table: Map<SocketHandle, SocketView>,
    handles: Seq<SocketHandle>,
    count: nat,
    other: SocketHandle,
)
    requires
        all_tcp(table, handles),
        count <= handles.len(),
        table.dom().contains(other),
        !(table[other] is Tcp),
    ensures
        aborted_all(table, handles, count)[other] == table[other],
    decreases count,
{
    if count > 0 {
        lemma_aborted_all_keeps_others(table, handles, (count - 1) as nat, other);
        assert(handles[count - 1] != other);
    }
}

/// Serving connections changes no socket's kind and keeps the number of
/// connections.
pub proof fn lemma_served_keeps_kinds(
    received: Seq<Seq<u8>>,
    storage: Seq<Seq<u8>>,
    handles: Seq<SocketHandle>,
    table: Map<SocketHandle, SocketView>,
    page: Seq<u8>,
    count: nat,
)
    requires
        all_tcp(table, handles),
        count <= handles.len(),
        received.len() == handles.len(),
        storage.len() == handles.len(),
    ensures
        all_tcp(served(received, storage, handles, table, page, count).table, handles),
        served(received, storage, handles, table, page, count).table.dom() == table.dom(),
        served(received, storage, handles, table, page, count).received.len() == received.len(),
        served(received, storage, handles, table, page, count).storage.len() == storage.len(),
        served(received, storage, handles, table, page, count).outcomes.len() == count,
    decreases count,
{
    if count > 0 {
        lemma_served_keeps_kinds(received, storage, handles, table, page, (count - 1) as nat);
        let before = served(received, storage, handles, table, page, (count - 1) as nat);
        assert(before.table.dom().contains(handles[count - 1]));
        assert(served(received, storage, handles, table, page, count).table.dom() =~= table.dom());
    }
}

/// The connections of the endpoint, one per listening socket, in slot order.
pub struct TcpConnectionPool {
    connections: [TcpConnection; POOL_SIZE],
}

impl TcpConnectionPool {
    /// The socket handles of the connections, in slot order.
    pub closed spec fn handles(self) -> Seq<SocketHandle> {
        Seq::new(self.connections@.len(), |i: int| self.connections@[i].handle())
    }

    /// The bytes that each connection holds, in slot order.
    pub closed spec fn received(self) -> Seq<Seq<u8>> {
        Seq::new(self.connections@.len(), |i: int| self.connections@[i].received())
    }

    /// The whole buffer of each connection, in slot order.
    pub closed spec fn storage(self) -> Seq<Seq<u8>> {
        Seq::new(self.connections@.len(), |i: int| self.connections@[i].storage())
    }

    /// A pool with one connection on each of the sockets `handles`, in that
    /// order. No connection has received anything, and every buffer is all
    /// zeros.
    pub fn new(handles: [SocketHandle; POOL_SIZE]) -> (pool: TcpConnectionPool)
        ensures
            pool.handles() == handles@,
            pool.received() == Seq::new(POOL_SIZE as nat, |i: int| Seq::<u8>::empty()),
            pool.storage() == Seq::new(
                POOL_SIZE as nat,
                |i: int| Seq::new(CAPACITY as nat, |k: int| 0u8),
            ),
    {
        let pool = TcpConnectionPool {
            connections: [
                TcpConnection::new(handles[0]),
                TcpConnection::new(handles[1]),
                TcpConnection::new(handles[2]),
            ],
        };
        proof {
            assert(pool.handles() =~= handles@);
            assert(pool.received() =~= Seq::new(POOL_SIZE as nat, |i: int| Seq::<u8>::empty()));
            assert(pool.storage() =~= Seq::new(
                POOL_SIZE as nat,
                |i: int| Seq::new(CAPACITY as nat, |k: int| 0u8),
            ));
        }
        pool
    }

    /// Number of connections.
    pub fn len(&self) -> (count: usize)
        ensures
            count == POOL_SIZE,
            count == self.handles().len(),
            count == self.received().len(),
            count == self.storage().len(),
    {
        POOL_SIZE
    }

    /// The socket handle of the connection in slot `slot`.
    pub fn handle(&self, slot: usize) -> (handle: SocketHandle)
        requires
            slot < self.handles().len(),
        ensures
            handle == self.handles()[slot as int],
    {
        self.connections[slot].socket_handle()
    }

    /// Number of bytes that the connection in slot `slot` holds.
    pub fn buffered(&self, slot: usize) -> (count: usize)
        requires
            slot < self.handles().len(),
        ensures
            count == self.received()[slot as int].len(),
    {
        self.connections[slot].buffered()
    }

    /// Resets every connection, in slot order: its socket is aborted and its
    /// buffer emptied.
    pub fn reset(&mut self, sockets: &mut SocketSet)
        requires
            all_tcp(socket_table(old(sockets)), old(self).handles()),
        ensures
            final(self).handles() == old(self).handles(),
            final(self).received() == Seq::new(
                old(self).handles().len(),
                |i: int| Seq::<u8>::empty(),
            ),
            final(self).storage() == old(self).storage(),
            socket_table(final(sockets)) == aborted_all(
                socket_table(old(sockets)),
                old(self).handles(),
                old(self).handles().len(),
            ),
    {
        let count: usize = POOL_SIZE;
        let ghost handles = self.handles();
        let ghost storage = self.storage();
        let ghost table = socket_table(sockets);
        let mut slot: usize = 0;
        while slot < count
            invariant
                slot <= count,
                count == self.connections@.len(),
                count == handles.len(),
                self.handles() == handles,
                self.storage() == storage,
                all_tcp(table, handles),
                socket_table(sockets) == aborted_all(table, handles, slot as nat),
                forall|i: int| 0 <= i < slot ==> (#[trigger] self.connections@[i]).received()
                    == Seq::<u8>::empty(),
            decreases count - slot,
        {
            proof {
                lemma_aborted_all_keeps_kinds(table, handles, slot as nat);
                assert(handles[slot as int] == self.connections@[slot as int].handle());
            }
            let ghost before = self.connections@;
            self.connections[slot].reset(sockets);
            proof {
                assert(self.handles() =~= handles) by {
                    assert forall|i: int| 0 <= i < count implies self.connections@[i].handle()
                        == handles[i] by {
                        assert(handles[i] == before[i].handle());
                    }
                }
                assert(self.storage() =~= storage) by {
                    assert forall|i: int| 0 <= i < count implies self.connections@[i].storage()
                        == storage[i] by {
                        assert(storage[i] == before[i].storage());
                    }
                }
            }
            slot += 1;
        }
        proof {
            assert(self.received() =~= Seq::new(handles.len(), |i: int| Seq::<u8>::empty()));
        }
    }

    /// Serves every connection once, in slot order, and gives what each did.
    pub fn serve(&mut self, sockets: &mut SocketSet, page: &[u8]) -> (outcomes: [Outcome;
        POOL_SIZE])
        requires
            all_tcp(socket_table(old(sockets)), old(self).handles()),
        ensures
            final(self).handles() == old(self).handles(),
            outcomes@ == served(
                old(self).received(),
                old(self).storage(),
                old(self).handles(),
                socket_table(old(sockets)),
                page@,
                old(self).handles().len(),
            ).outcomes,
            final(self).received() == served(
                old(self).received(),
                old(self).storage(),
                old(self).handles(),
                socket_table(old(sockets)),
                page@,
                old(self).handles().len(),
            ).received,
            final(self).storage() == served(
                old(self).received(),
                old(self).storage(),
                old(self).handles(),
                socket_table(old(sockets)),
                page@,
                old(self).handles().len(),
            ).storage,
            socket_table(final(sockets)) == served(
                old(self).received(),
                old(self).storage(),
                old(self).handles(),
                socket_table(old(sockets)),
                page@,
                old(self).handles().len(),
            ).table,
    {
        let count: usize = POOL_SIZE;
        let ghost handles = self.handles();
        let ghost received = self.received();
        let ghost storage = self.storage();
        let ghost table = socket_table(sockets);
        let mut outcomes: [Outcome; POOL_SIZE] = [Outcome::Idle; POOL_SIZE];
        let mut slot: usize = 0;
        while slot < count
            invariant
                slot <= count,
                count == self.connections@.len(),
                count == handles.len(),
                count == received.len(),
                count == storage.len(),
                self.handles() == handles,
                all_tcp(table, handles),
                outcomes@.take(slot as int) == served(
                    received,
                    storage,
                    handles,
                    table,
                    page@,
                    slot as nat,
                ).outcomes,
                self.received() == served(
                    received,
                    storage,
                    handles,
                    table,
                    page@,
                    slot as nat,
                ).received,
                self.storage() == served(
                    received,
                    storage,
                    handles,
                    table,
                    page@,
                    slot as nat,
                ).storage,
                socket_table(sockets) == served(
                    received,
                    storage,
                    handles,
                    table,
                    page@,
                    slot as nat,
                ).table,
            decreases count - slot,
        {
            proof {
                lemma_served_keeps_kinds(received, storage, handles, table, page@, slot as nat);
                assert(handles[slot as int] == self.connections@[slot as int].handle());
                assert(self.received()[slot as int] == self.connections@[slot as int].received());
                assert(self.storage()[slot as int] == self.connections@[slot as int].storage());
            }
            let ghost before = self.connections@;
            let ghost held = self.received();
            let ghost kept = self.storage();
            let outcome = self.connections[slot].handler(sockets, page);
            let ghost reported = outcomes@;
            outcomes[slot] = outcome;
            proof {
                assert(outcomes@.take(slot + 1) =~= reported.take(slot as int).push(outcome));
                assert(self.handles() =~= handles) by {
                    assert forall|i: int| 0 <= i < count implies self.connections@[i].handle()
                        == handles[i] by {
                        assert(handles[i] == before[i].handle());
                    }
                }
                assert(self.received() =~= held.update(
                    slot as int,
                    self.connections@[slot as int].received(),
                )) by {
                    assert forall|i: int| 0 <= i < count && i != slot implies (
                    #[trigger] self.connections@[i]).received() == held[i] by {
                        assert(held[i] == before[i].received());
                    }
                }
                assert(self.storage() =~= kept.update(
                    slot as int,
                    self.connections@[slot as int].storage(),
                )) by {
                    assert forall|i: int| 0 <= i < count && i != slot implies (
                    #[trigger] self.connections@[i]).storage() == kept[i] by {
                        assert(kept[i] == before[i].storage());
                    }
                }
            }
            slot += 1;
        }
        proof {
            assert(outcomes@.take(POOL_SIZE as int) =~= outcomes@);
        }
        outcomes
    }
}

} // verus!
