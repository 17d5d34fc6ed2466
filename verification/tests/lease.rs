use led_httpd::dhcp::{dhcp_handler, DhcpEvent, DhcpReport, Ipv4Address, Ipv4Cidr};
use led_httpd::link::reset_sockets;
use led_httpd::pool::TcpConnectionPool;
use smoltcp::iface::{Config, Interface, SocketHandle, SocketSet};
use smoltcp::phy::{ChecksumCapabilities, Device, Loopback, Medium, RxToken, TxToken};
use smoltcp::socket::{dhcpv4, tcp};
use smoltcp::time::Instant;
use smoltcp::wire::{
    DhcpMessageType, DhcpPacket, DhcpRepr, EthernetAddress, EthernetFrame, EthernetProtocol,
    EthernetRepr, HardwareAddress, IpAddress, IpCidr, IpProtocol, Ipv4Packet, Ipv4Repr, UdpPacket,
    UdpRepr,
};

/// A network on which the test plays the DHCP server.
struct Net {
    device: Loopback,
    interface: Interface,
    sockets: SocketSet<'static>,
    millis: i64,
    dhcp: SocketHandle,
}

fn server() -> smoltcp::wire::Ipv4Address {
    smoltcp::wire::Ipv4Address::new(192, 168, 1, 1)
}

fn leased() -> smoltcp::wire::Ipv4Address {
    smoltcp::wire::Ipv4Address::new(192, 168, 1, 50)
}

/// What a frame from the client asks of the server.
fn client_message(frame: &[u8]) -> Option<(DhcpMessageType, u32, EthernetAddress)> {
    let ethernet = EthernetFrame::new_checked(frame).ok()?;
    if ethernet.ethertype() != EthernetProtocol::Ipv4 {
        return None;
    }
    let ip = Ipv4Packet::new_checked(ethernet.payload()).ok()?;
    if ip.next_header() != IpProtocol::Udp {
        return None;
    }
    let udp = UdpPacket::new_checked(ip.payload()).ok()?;
    if udp.dst_port() != 67 {
        return None;
    }
    let packet = DhcpPacket::new_checked(udp.payload()).ok()?;
    let message = DhcpRepr::parse(&packet).ok()?;
    Some((message.message_type, message.transaction_id, message.client_hardware_address))
}

/// The frame with which the server answers: an offer or an acknowledgement
/// of 192.168.1.50/24 with or without a router.
fn server_frame(
    kind: DhcpMessageType,
    transaction_id: u32,
    client: EthernetAddress,
    router: Option<smoltcp::wire::Ipv4Address>,
) -> Vec<u8> {
    let message = DhcpRepr {
        message_type: kind,
        transaction_id,
        secs: 0,
        client_hardware_address: client,
        client_ip: smoltcp::wire::Ipv4Address::UNSPECIFIED,
        your_ip: leased(),
        server_ip: server(),
        router,
        subnet_mask: Some(smoltcp::wire::Ipv4Address::new(255, 255, 255, 0)),
        relay_agent_ip: smoltcp::wire::Ipv4Address::UNSPECIFIED,
        broadcast: false,
        requested_ip: None,
        client_identifier: None,
        server_identifier: Some(server()),
        parameter_request_list: None,
        dns_servers: None,
        max_size: None,
        lease_duration: Some(3600),
        renew_duration: None,
        rebind_duration: None,
        additional_options: &[],
    };
    let udp = UdpRepr { src_port: 67, dst_port: 68 };
    let ip = Ipv4Repr {
        src_addr: server(),
        dst_addr: smoltcp::wire::Ipv4Address::BROADCAST,
        next_header: IpProtocol::Udp,
        payload_len: udp.header_len() + message.buffer_len(),
        hop_limit: 64,
    };
    let ethernet = EthernetRepr {
        src_addr: EthernetAddress([0x02, 0, 0, 0, 0, 0x99]),
        dst_addr: EthernetAddress::BROADCAST,
        ethertype: EthernetProtocol::Ipv4,
    };
    let checksums = ChecksumCapabilities::default();
    let mut bytes = vec![0u8; ethernet.buffer_len() + ip.buffer_len() + ip.payload_len];
    let mut frame = EthernetFrame::new_unchecked(&mut bytes[..]);
    ethernet.emit(&mut frame);
    let mut packet = Ipv4Packet::new_unchecked(frame.payload_mut());
    ip.emit(&mut packet, &checksums);
    let mut datagram = UdpPacket::new_unchecked(packet.payload_mut());
    udp.emit(
        &mut datagram,
        &IpAddress::Ipv4(ip.src_addr),
        &IpAddress::Ipv4(ip.dst_addr),
        message.buffer_len(),
        |payload| message.emit(&mut DhcpPacket::new_unchecked(payload)).unwrap(),
        &checksums,
    );
    bytes
}

impl Net {
    fn new() -> Net {
        let mut device = Loopback::new(Medium::Ethernet);
        let hardware = HardwareAddress::Ethernet(EthernetAddress([0x02, 0, 0, 0, 0, 0x01]));
        let interface = Interface::new(Config::new(hardware), &mut device, Instant::from_millis(0));
        let mut sockets = SocketSet::new(vec![]);
        let dhcp = sockets.add(dhcpv4::Socket::new());
        Net { device, interface, sockets, millis: 0, dhcp }
    }

    fn now(&self) -> Instant {
        Instant::from_millis(self.millis)
    }

    /// Polls the interface once, then answers as the DHCP server whatever
    /// the client has sent.
    fn step(&mut self, router: Option<smoltcp::wire::Ipv4Address>) {
        self.millis += 10;
        self.interface.poll(self.now(), &mut self.device, &mut self.sockets);
        let mut sent = Vec::new();
        while let Some((rx, _tx)) = self.device.receive(self.now()) {
            sent.push(rx.consume(|frame| frame.to_vec()));
        }
        for frame in sent {
            let answer = match client_message(&frame) {
                Some((DhcpMessageType::Discover, id, client)) => {
                    server_frame(DhcpMessageType::Offer, id, client, router)
                }
                Some((DhcpMessageType::Request, id, client)) => {
                    server_frame(DhcpMessageType::Ack, id, client, router)
                }
                _ => continue,
            };
            let token = self.device.transmit(self.now()).unwrap();
            token.consume(answer.len(), |buffer| buffer.copy_from_slice(&answer));
        }
    }

    fn acquire(&mut self, router: Option<smoltcp::wire::Ipv4Address>) {
        for _ in 0..10 {
            self.step(router);
        }
    }

    fn routes(&mut self) -> Vec<(IpCidr, IpAddress)> {
        let mut rows = Vec::new();
        self.interface.routes_mut().update(|table| {
            for route in table.iter() {
                rows.push((route.cidr, route.via_router));
            }
        });
        rows
    }
}

fn lease(router: Option<Ipv4Address>) -> DhcpEvent {
    DhcpEvent::Configured {
        address: Ipv4Cidr { address: Ipv4Address(192, 168, 1, 50), prefix_len: 24 },
        router,
    }
}

#[test]
fn acquired_lease_is_applied() {
    let mut net = Net::new();
    let first = dhcp_handler(&mut net.sockets, net.dhcp, &mut net.interface);
    assert_eq!(first, DhcpReport { event: Some(DhcpEvent::Deconfigured), result: Ok(()) });
    net.acquire(Some(server()));
    let report = dhcp_handler(&mut net.sockets, net.dhcp, &mut net.interface);
    assert_eq!(
        report,
        DhcpReport { event: Some(lease(Some(Ipv4Address(192, 168, 1, 1)))), result: Ok(()) }
    );
    assert_eq!(net.interface.ip_addrs(), [IpCidr::new(IpAddress::v4(192, 168, 1, 50), 24)]);
    assert_eq!(
        net.routes(),
        vec![(IpCidr::new(IpAddress::v4(0, 0, 0, 0), 0), IpAddress::v4(192, 168, 1, 1))]
    );
    let again = dhcp_handler(&mut net.sockets, net.dhcp, &mut net.interface);
    assert_eq!(again, DhcpReport { event: None, result: Ok(()) });
    assert_eq!(net.interface.ip_addrs(), [IpCidr::new(IpAddress::v4(192, 168, 1, 50), 24)]);
}

#[test]
fn lease_without_router_installs_no_route() {
    let mut net = Net::new();
    net.interface.routes_mut().add_default_ipv4_route(server()).unwrap();
    net.acquire(None);
    let report = dhcp_handler(&mut net.sockets, net.dhcp, &mut net.interface);
    assert_eq!(report, DhcpReport { event: Some(lease(None)), result: Ok(()) });
    assert_eq!(net.interface.ip_addrs(), [IpCidr::new(IpAddress::v4(192, 168, 1, 50), 24)]);
    assert_eq!(net.routes(), vec![]);
}

#[test]
fn reset_drops_the_lease() {
    let mut net = Net::new();
    let mut listener = || {
        let rx = tcp::SocketBuffer::new(vec![0; 64]);
        let tx = tcp::SocketBuffer::new(vec![0; 64]);
        net.sockets.add(tcp::Socket::new(rx, tx))
    };
    let mut pool = TcpConnectionPool::new([listener(), listener(), listener()]);
    net.acquire(Some(server()));
    let report = dhcp_handler(&mut net.sockets, net.dhcp, &mut net.interface);
    assert_eq!(report.event, Some(lease(Some(Ipv4Address(192, 168, 1, 1)))));
    reset_sockets(net.dhcp, &mut pool, &mut net.sockets);
    let after = dhcp_handler(&mut net.sockets, net.dhcp, &mut net.interface);
    assert_eq!(after, DhcpReport { event: Some(DhcpEvent::Deconfigured), result: Ok(()) });
    assert!(net.interface.ip_addrs().is_empty());
    assert_eq!(net.routes(), vec![]);
}
