//! The network logic of a wifi-attached LED controller.
//!
//! The device joins a wireless network, takes an address by DHCP and serves a
//! page at port 80. A POST to `/` with the body `led=on` or `led=off`
//! switches the LED.
//!
//! * [`link`] decides what to do about the wireless link.
//! * [`dhcp`] applies the DHCP client's events to the interface.
//! * [`connection`] assembles one request from the segments in which it
//!   arrives and answers it; [`delivery`] shows that the cut into segments
//!   does not matter; [`pool`] serves all connections in turn.
//! * [`request`] judges the bytes received so far; [`length`] reads the
//!   declared body length; [`command`] holds the command vocabulary.
//! * [`sockets`] is the view of the protocol stack on which the contracts of
//!   the other modules rest.
//!
//! The drivers, the clock and the loop that polls the interface are the
//! caller's.

pub mod command;
pub mod connection;
pub mod delivery;
pub mod dhcp;
pub mod length;
pub mod link;
pub mod pool;
pub mod request;
pub mod sockets;
