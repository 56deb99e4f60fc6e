//! Endpoint identities: addresses, protocols, local sockets, and the raw
//! connection records a connection source reports.
use vstd::prelude::*;

verus! {

/// A local IP address, IPv4 or IPv6, held as its integer value.
#[derive(Clone, Copy, Debug, PartialEq, Eq, Hash, Structural)]
pub enum IpAddress {
    V4(u32),
    V6(u128),
}

impl IpAddress {
    /// The IPv4 address `a.b.c.d`.
    pub fn v4(a: u8, b: u8, c: u8, d: u8) -> (r: IpAddress)
        ensures
            r == IpAddress::V4((a as int * 0x1000000 + b as int * 0x10000 + c as int * 0x100
                + d as int) as u32),
    {
        IpAddress::V4((a as u32) * 0x1000000 + (b as u32) * 0x10000 + (c as u32) * 0x100 + (d as u32))
    }
}

/// A transport protocol.
#[derive(Clone, Copy, Debug, PartialEq, Eq, Hash, Structural)]
pub enum Protocol {
    Tcp,
    Udp,
}

/// The local half of a connection: address, port and protocol.
///
/// Two sockets are equal exactly when all three fields are equal.
#[derive(Clone, Copy, Debug, PartialEq, Eq, Hash, Structural)]
pub struct LocalSocket {
    pub ip: IpAddress,
    pub port: u16,
    pub protocol: Protocol,
}

/// One connection as a connection source reports it: its local endpoint and
/// the name of the process that holds it open.
#[derive(Clone, Debug)]
pub struct RawConnection {
    pub local_ip: IpAddress,
    pub local_port: u16,
    pub protocol: Protocol,
    pub process_name: String,
}

impl RawConnection {
    /// The local socket this connection is keyed by.
    pub open spec fn local_socket(self) -> LocalSocket {
        LocalSocket { ip: self.local_ip, port: self.local_port, protocol: self.protocol }
    }

    pub fn get_local_ip(&self) -> (r: IpAddress)
        ensures
            r == self.local_ip,
    {
        self.local_ip
    }

    pub fn get_local_port(&self) -> (r: u16)
        ensures
            r == self.local_port,
    {
        self.local_port
    }

    pub fn get_protocol(&self) -> (r: Protocol)
        ensures
            r == self.protocol,
    {
        self.protocol
    }
}

} // verus!
