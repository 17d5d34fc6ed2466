//! Applying DHCP lease events to the network interface.
//!
//! The interface holds at most one IPv4 address and at most one default
//! route, and both follow the latest event of the DHCP client: a lease sets
//! the address and sets or removes the default route, the loss of the lease
//! clears both. [`applied`] says what an event makes of the interface.
//!
//! The interface belongs to `smoltcp`. What the endpoint reads of it has the
//! name [`interface_view`]; the calls that change it are made by short
//! functions whose contracts are taken from the stack's source and believed.

use vstd::prelude::*;
use smoltcp::config::IFACE_MAX_ADDR_COUNT;
use smoltcp::iface::{Interface, SocketHandle, SocketSet};
use smoltcp::wire::IpCidr;
use crate::sockets::{dhcp_poll, dhcp_view, holds_dhcp, socket_table, with_dhcp, DhcpView};

verus! {

/// `smoltcp::iface::Interface`, opaque to the verifier.
#[verifier::external_type_specification]
#[verifier::external_body]
pub struct ExInterface(Interface);

/// `smoltcp::wire::IpCidr`, opaque to the verifier.
#[verifier::external_type_specification]
#[verifier::external_body]
pub struct ExIpCidr(IpCidr);

/// `heapless::Vec`, opaque to the verifier.
#[verifier::external_type_specification]
#[verifier::external_body]
#[verifier::reject_recursive_types(T)]
pub struct ExFixedVec<T, const N: usize>(heapless::Vec<T, N>);

/// An IPv4 address, by its four octets.
#[derive(Clone, Copy, Debug, PartialEq, Eq, Structural)]
pub struct Ipv4Address(pub u8, pub u8, pub u8, pub u8);

/// An IPv4 address with the length of its network prefix.
#[derive(Clone, Copy, Debug, PartialEq, Eq, Structural)]
pub struct Ipv4Cidr {
    pub address: Ipv4Address,
    pub prefix_len: u8,
}

/// What the DHCP client reports.
#[derive(Clone, Copy, Debug, PartialEq, Eq)]
pub enum DhcpEvent {
    /// A lease was acquired or changed.
    Configured { address: Ipv4Cidr, router: Option<Ipv4Address> },
    /// The lease was lost.
    Deconfigured,
}

/// Why an event could not be applied in full.
#[derive(Clone, Copy, Debug, PartialEq, Eq, Structural)]
pub enum DhcpError {
    /// The leased address is a broadcast or multicast address, or its prefix
    /// is longer than 32 bits. The interface was left as it was.
    UnusableAddress,
    /// The routing table has no room for the default route. The address was
    /// set; no default route is installed.
    RouteTableFull,
}

/// The event that one poll of the DHCP client gave, and how applying it
/// went.
#[derive(Clone, Copy, Debug, PartialEq, Eq)]
pub struct DhcpReport {
    pub event: Option<DhcpEvent>,
    pub result: Result<(), DhcpError>,
}

impl Ipv4Address {
    /// The address with the octets `octets`.
    pub fn from_octets(octets: [u8; 4]) -> (address: Ipv4Address)
        ensures
            address == Ipv4Address(octets@[0], octets@[1], octets@[2], octets@[3]),
    {
        Ipv4Address(octets[0], octets[1], octets[2], octets[3])
    }

    /// The address is 255.255.255.255.
    pub open spec fn is_broadcast(self) -> bool {
        self.0 == 255 && self.1 == 255 && self.2 == 255 && self.3 == 255
    }

    /// The address lies in 224.0.0.0/4.
    pub open spec fn is_multicast(self) -> bool {
        224 <= self.0 <= 239
    }

    /// An interface can hold the address: it is neither the broadcast address
    /// nor a multicast address.
    pub open spec fn is_assignable(self) -> bool {
        !self.is_broadcast() && !self.is_multicast()
    }

    /// Whether an interface can hold the address.
    pub fn assignable(&self) -> (assignable: bool)
        ensures
            assignable == self.is_assignable(),
    {
        let broadcast = self.0 == 255 && self.1 == 255 && self.2 == 255 && self.3 == 255;
        let multicast = 224 <= self.0 && self.0 <= 239;
        !broadcast && !multicast
    }
}

impl Ipv4Cidr {
    /// An interface can hold the address, and the prefix has at most 32 bits.
    pub open spec fn is_usable(self) -> bool {
        self.prefix_len <= 32 && self.address.is_assignable()
    }

    /// Whether an interface can take this address.
    pub fn usable(&self) -> (usable: bool)
        ensures
            usable == self.is_usable(),
    {
        self.prefix_len <= 32 && self.address.assignable()
    }
}

/// A row of the routing table that is no default route.
pub struct RouteView {
    /// The addresses that are routed.
    pub cidr: Ipv4Cidr,
    /// The router through which they are reached.
    pub via: Ipv4Address,
    /// Until when the route is preferred, in microseconds; `None` is forever.
    pub preferred_until: Option<int>,
    /// When the route expires, in microseconds; `None` is never.
    pub expires_at: Option<int>,
}

/// What the endpoint reads of the interface.
pub struct InterfaceView {
    /// The addresses of the interface, in order.
    pub addresses: Seq<Ipv4Cidr>,
    /// The gateways of the default routes in the routing table, in table
    /// order.
    pub gateways: Seq<Ipv4Address>,
    /// The other rows of the routing table, in table order.
    pub other_routes: Seq<RouteView>,
    /// How many more routes the routing table takes.
    pub route_room: nat,
}

impl InterfaceView {
    /// At most one address and at most one default route.
    pub open spec fn well_formed(self) -> bool {
        self.addresses.len() <= 1 && self.gateways.len() <= 1
    }

    /// The interface after its addresses were replaced by `address`.
    pub open spec fn readdressed(self, address: Option<Ipv4Cidr>) -> InterfaceView {
        InterfaceView { addresses: sole(address), ..self }
    }

    /// The interface after the first default route was removed from its
    /// routing table.
    pub open spec fn unrouted(self) -> InterfaceView {
        if self.gateways.len() > 0 {
            InterfaceView {
                gateways: self.gateways.skip(1),
                route_room: self.route_room + 1,
                ..self
            }
        } else {
            self
        }
    }

    /// Whether the routing table takes a default route via a new gateway,
    /// once the first default route has left it.
    pub open spec fn takes_route(self) -> bool {
        self.unrouted().route_room > 0
    }

    /// The interface after the first default route was removed and, where
    /// the table has room, a default route via `gateway` was appended.
    pub open spec fn routed(self, gateway: Ipv4Address) -> InterfaceView {
        let cleared = self.unrouted();
        if cleared.route_room > 0 {
            InterfaceView {
                gateways: cleared.gateways.push(gateway),
                route_room: (cleared.route_room - 1) as nat,
                ..cleared
            }
        } else {
            cleared
        }
    }
}

/// The list that holds `address` and nothing else, or nothing at all.
pub open spec fn sole(address: Option<Ipv4Cidr>) -> Seq<Ipv4Cidr> {
    match address {
        Some(address) => seq![address],
        None => Seq::empty(),
    }
}

/// What the endpoint reads of `interface`.
pub uninterp spec fn interface_view(interface: &Interface) -> InterfaceView;

/// The addresses that an address list of the interface holds, in order.
pub uninterp spec fn address_list(list: &heapless::Vec<IpCidr, IFACE_MAX_ADDR_COUNT>) -> Seq<
    Ipv4Cidr,
>;

/// `heapless::Vec::clear` on an address list.
///
/// Claims that the list is empty afterwards.
#[verifier::external_body]
fn address_list_clear(list: &mut heapless::Vec<IpCidr, IFACE_MAX_ADDR_COUNT>)
    ensures
        address_list(final(list)) == Seq::<Ipv4Cidr>::empty(),
{
    list.clear();
}

/// `heapless::Vec::push` of `address` on an address list; reports whether
/// the list took it.
///
/// Claims: an address that is taken is appended; one that is refused leaves
/// the list as it was; an empty list takes an address (the stack can only be
/// built with a list capacity between 1 and 8).
#[verifier::external_body]
fn address_list_push(
    list: &mut heapless::Vec<IpCidr, IFACE_MAX_ADDR_COUNT>,
    address: Ipv4Cidr,
) -> (taken: bool)
    requires
        address.prefix_len <= 32,
    ensures
        address_list(old(list)).len() == 0 ==> taken,
        address_list(final(list)) == if taken {
            address_list(old(list)).push(address)
        } else {
            address_list(old(list))
        },
{
    let Ipv4Address(a, b, c, d) = address.address;
    let cidr = smoltcp::wire::Ipv4Cidr::new(
        smoltcp::wire::Ipv4Address::new(a, b, c, d),
        address.prefix_len,
    );
    list.push(IpCidr::Ipv4(cidr)).is_ok()
}

/// Replaces what `list` holds by `address`: clear, then set.
pub fn replace_addresses(
    list: &mut heapless::Vec<IpCidr, IFACE_MAX_ADDR_COUNT>,
    address: Option<Ipv4Cidr>,
)
    requires
        address matches Some(address) ==> address.prefix_len <= 32,
    ensures
        address_list(final(list)) == sole(address),
{
    address_list_clear(list);
    if let Some(address) = address {
        address_list_push(list, address);
    }
}

/// `Interface::update_ip_addrs` with [`replace_addresses`] as the update.
///
/// Claims that the interface's addresses are afterwards what the update left
/// in the list, and that the routing table is untouched. (The stack also
/// empties its cache of neighbours, of which the view holds nothing.) The stack panics on
/// a broadcast or multicast address and on a prefix longer than 32 bits:
/// those are left out.
#[verifier::external_body]
fn interface_set_addresses(interface: &mut Interface, address: Option<Ipv4Cidr>)
    requires
        address matches Some(address) ==> address.is_usable(),
    ensures
        interface_view(final(interface)) == interface_view(old(interface)).readdressed(address),
{
    interface.update_ip_addrs(|list| replace_addresses(list, address));
}

/// `Routes::add_default_ipv4_route` on the interface's routing table;
/// reports whether it returned `Ok`.
///
/// Claims: the first default route leaves the table; a default route via
/// `gateway` is then appended if the table has room, and the call fails if it
/// has none. The addresses and the other routes are untouched.
#[verifier::external_body]
fn interface_add_default_route(interface: &mut Interface, gateway: Ipv4Address) -> (installed:
    bool)
    ensures
        installed == interface_view(old(interface)).takes_route(),
        interface_view(final(interface)) == interface_view(old(interface)).routed(gateway),
{
    let Ipv4Address(a, b, c, d) = gateway;
    let gateway = smoltcp::wire::Ipv4Address::new(a, b, c, d);
    interface.routes_mut().add_default_ipv4_route(gateway).is_ok()
}

/// `Routes::remove_default_ipv4_route` on the interface's routing table.
///
/// Claims that the first default route leaves the table, if there is one, and
/// that the addresses and the other routes are untouched.
#[verifier::external_body]
fn interface_remove_default_route(interface: &mut Interface)
    ensures
        interface_view(final(interface)) == interface_view(old(interface)).unrouted(),
{
    interface.routes_mut().remove_default_ipv4_route();
}

/// An interface after an event, and whether the event was applied in full.
pub struct Applied {
    pub interface: InterfaceView,
    pub result: Result<(), DhcpError>,
}

/// What `event` makes of an interface that was `before`.
///
/// A lease replaces the addresses by the leased one and installs the router
/// as default route in place of the first one, or removes that route if the
/// lease names no router. The loss of the lease clears the addresses and
/// removes the first default route.
pub open spec fn applied(before: InterfaceView, event: DhcpEvent) -> Applied {
    match event {
        DhcpEvent::Configured { address, router } => if !address.is_usable() {
            Applied { interface: before, result: Err(DhcpError::UnusableAddress) }
        } else {
            let addressed = before.readdressed(Some(address));
            match router {
                Some(router) => Applied {
                    interface: addressed.routed(router),
                    result: if addressed.takes_route() {
                        Ok(())
                    } else {
                        Err(DhcpError::RouteTableFull)
                    },
                },
                None => Applied { interface: addressed.unrouted(), result: Ok(()) },
            }
        },
        DhcpEvent::Deconfigured => Applied {
            interface: before.readdressed(None).unrouted(),
            result: Ok(()),
        },
    }
}

/// Applies `event` to `interface`.
pub fn apply_dhcp_event(interface: &mut Interface, event: DhcpEvent) -> (result: Result<
    (),
    DhcpError,
>)
    ensures
        interface_view(final(interface)) == applied(
            interface_view(old(interface)),
            event,
        ).interface,
        result == applied(interface_view(old(interface)), event).result,
{
    match event {
        DhcpEvent::Configured { address, router } => {
            if !address.usable() {
                return Err(DhcpError::UnusableAddress);
            }
            interface_set_addresses(interface, Some(address));
            match router {
                Some(router) => {
                    if interface_add_default_route(interface, router) {
                        Ok(())
                    } else {
                        Err(DhcpError::RouteTableFull)
                    }
                },
                None => {
                    interface_remove_default_route(interface);
                    Ok(())
                },
            }
        },
        DhcpEvent::Deconfigured => {
            interface_set_addresses(interface, None);
            interface_remove_default_route(interface);
            Ok(())
        },
    }
}

/// Asks the DHCP client at `handle` once for an event and applies it to
/// `interface`.
///
/// The event is the one that was pending at the client, and asking takes it:
/// none is pending afterwards. The interface afterwards is what [`applied`]
/// says of the event; without an event it is untouched.
pub fn dhcp_handler(
    sockets: &mut SocketSet,
    handle: SocketHandle,
    interface: &mut Interface,
) -> (report: DhcpReport)
    requires
        holds_dhcp(old(sockets), handle),
    ensures
        report.event == dhcp_view(old(sockets), handle).pending(),
        socket_table(final(sockets)) == with_dhcp(
            socket_table(old(sockets)),
            handle,
            dhcp_view(old(sockets), handle).polled(),
        ),
        match report.event {
            Some(event) => {
                &&& interface_view(final(interface)) == applied(
                    interface_view(old(interface)),
                    event,
                ).interface
                &&& report.result == applied(interface_view(old(interface)), event).result
            },
            None => {
                &&& interface_view(final(interface)) == interface_view(old(interface))
                &&& report.result == Ok::<(), DhcpError>(())
            },
        },
{
    match dhcp_poll(sockets, handle) {
        Some(event) => {
            let result = apply_dhcp_event(interface, event);
            DhcpReport { event: Some(event), result }
        },
        None => DhcpReport { event: None, result: Ok(()) },
    }
}

/// One call takes at most one event: once the client has been asked, nothing
/// is pending until its configuration changes again.
pub proof fn law_event_taken_once(client: DhcpView)
    ensures
        client.polled().pending() is None,
        client.polled().lease == client.lease,
        client.polled().polled() == client.polled(),
{
}

/// Every event changes the addresses and the default routes only: the other
/// rows of the routing table stay as they were.
pub proof fn law_other_routes_kept(before: InterfaceView, event: DhcpEvent)
    ensures
        applied(before, event).interface.other_routes == before.other_routes,
{
}

/// A lease with a router, on an interface with at most one default route
/// and a routing table that can hold one, leaves exactly the leased address
/// and the router as the only default route.
pub proof fn law_lease_with_router(before: InterfaceView, address: Ipv4Cidr, router: Ipv4Address)
    requires
        before.well_formed(),
        address.is_usable(),
        before.takes_route(),
    ensures
        applied(
            before,
            DhcpEvent::Configured { address, router: Some(router) },
        ).interface.addresses == seq![address],
        applied(
            before,
            DhcpEvent::Configured { address, router: Some(router) },
        ).interface.gateways == seq![router],
        applied(before, DhcpEvent::Configured { address, router: Some(router) }).result is Ok,
{
    let after = applied(before, DhcpEvent::Configured { address, router: Some(router) }).interface;
    assert(after.gateways =~= seq![router]);
}

/// A lease without a router, on an interface with at most one default route,
/// leaves exactly the leased address and no default route.
pub proof fn law_lease_without_router(before: InterfaceView, address: Ipv4Cidr)
    requires
        before.well_formed(),
        address.is_usable(),
    ensures
        applied(before, DhcpEvent::Configured { address, router: None }).interface.addresses
            == seq![address],
        applied(before, DhcpEvent::Configured { address, router: None }).interface.gateways
            == Seq::<Ipv4Address>::empty(),
        applied(before, DhcpEvent::Configured { address, router: None }).result is Ok,
{
    let after = applied(before, DhcpEvent::Configured { address, router: None }).interface;
    assert(after.gateways =~= Seq::<Ipv4Address>::empty());
}

/// The loss of the lease, on an interface with at most one default route,
/// leaves no address and no default route.
pub proof fn law_lease_lost(before: InterfaceView)
    requires
        before.well_formed(),
    ensures
        applied(before, DhcpEvent::Deconfigured).interface.addresses == Seq::<Ipv4Cidr>::empty(),
        applied(before, DhcpEvent::Deconfigured).interface.gateways == Seq::<
            Ipv4Address,
        >::empty(),
        applied(before, DhcpEvent::Deconfigured).result is Ok,
{
    let after = applied(before, DhcpEvent::Deconfigured).interface;
    assert(after.gateways =~= Seq::<Ipv4Address>::empty());
}

/// Every event leaves an interface with at most one address and at most one
/// default route in that shape.
pub proof fn law_shape_kept(before: InterfaceView, event: DhcpEvent)
    requires
        before.well_formed(),
    ensures
        applied(before, event).interface.well_formed(),
{
}

/// Applying an event a second time changes nothing: the interface and the
/// result are those of the first time.
pub proof fn law_event_idempotent(before: InterfaceView, event: DhcpEvent)
    requires
        before.well_formed(),
    ensures
        applied(applied(before, event).interface, event) == applied(before, event),
{
    let once = applied(before, event);
    let twice = applied(once.interface, event);
    assert(twice.interface.addresses =~= once.interface.addresses);
    assert(twice.interface.gateways =~= once.interface.gateways);
}

} // verus!
