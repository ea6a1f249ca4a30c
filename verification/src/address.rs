//! Addresses of endpoints.
use vstd::prelude::*;

verus! {

/// An IP address as the destination service sends it.
#[derive(Clone, Copy, Debug)]
pub enum Ip {
    Ipv4(u32),
    /// Two halves, of which `last` becomes the high one.
    Ipv6 { first: u64, last: u64 },
}

/// An IP address, which may be absent.
#[derive(Clone, Copy, Debug)]
pub struct IpAddress {
    pub ip: Option<Ip>,
}

/// An address and a port as the destination service sends them.
#[derive(Clone, Copy, Debug)]
pub struct TcpAddress {
    pub ip: Option<IpAddress>,
    pub port: u32,
}

/// An IP address as one number.
#[derive(Clone, Copy, Debug, PartialEq, Eq, Structural)]
pub enum IpAddr {
    V4(u32),
    V6(u128),
}

/// The address of an endpoint.
#[derive(Clone, Copy, Debug, PartialEq, Eq, Structural)]
pub struct SocketAddr {
    pub ip: IpAddr,
    pub port: u16,
}

impl TcpAddress {
    /// Whether the address says which IP it has.
    pub open spec fn complete(self) -> bool {
        self.ip is Some && self.ip->0.ip is Some
    }

    /// Whether the address says which IP it has.
    pub fn is_complete(&self) -> (r: bool)
        ensures
            r == self.complete(),
    {
        match self.ip {
            Some(ip) => ip.ip.is_some(),
            None => false,
        }
    }
}

/// The socket address that `addr` stands for: the port is what fits in 16 bits of it.
pub open spec fn socket(addr: TcpAddress) -> SocketAddr {
    SocketAddr {
        ip: match addr.ip->0.ip->0 {
            Ip::Ipv4(ip) => IpAddr::V4(ip),
            Ip::Ipv6 { first, last } => IpAddr::V6(
                (last * 0x1_0000_0000_0000_0000 + first) as u128,
            ),
        },
        port: (addr.port % 0x1_0000) as u16,
    }
}

/// The socket address that `addr` stands for.
pub fn to_socket_addr(addr: TcpAddress) -> (r: SocketAddr)
    requires
        addr.complete(),
    ensures
        r == socket(addr),
{
    let ip = match addr.ip.unwrap().ip.unwrap() {
        Ip::Ipv4(ip) => IpAddr::V4(ip),
        Ip::Ipv6 { first, last } => {
            assert(((last as u128) << 64u128) | (first as u128) == last
                * 0x1_0000_0000_0000_0000u128 + first) by (bit_vector);
            IpAddr::V6(((last as u128) << 64) | (first as u128))
        },
    };
    let port = addr.port;
    assert(port as u16 == port % 0x1_0000) by (bit_vector);
    SocketAddr { ip, port: port as u16 }
}

/// Two addresses stand for the same socket exactly where they have the same IP and ports that
/// agree in their low 16 bits.
pub proof fn law_socket_identity(a: TcpAddress, b: TcpAddress)
    requires
        a.complete(),
        b.complete(),
    ensures
        socket(a) == socket(b) <==> a.ip->0.ip == b.ip->0.ip && a.port % 0x1_0000 == b.port
            % 0x1_0000,
{
}

impl SocketAddr {
    /// The address as numbers: whether it is of the longer kind, its IP and its port.
    pub open spec fn numbers(self) -> (bool, u128, u16) {
        match self.ip {
            IpAddr::V4(ip) => (false, ip as u128, self.port),
            IpAddr::V6(ip) => (true, ip, self.port),
        }
    }

    /// The address as numbers: whether it is of the longer kind, its IP and its port.
    pub fn to_numbers(&self) -> (r: (bool, u128, u16))
        ensures
            r == self.numbers(),
    {
        match self.ip {
            IpAddr::V4(ip) => (false, ip as u128, self.port),
            IpAddr::V6(ip) => (true, ip, self.port),
        }
    }
}

/// Addresses that differ have different numbers.
pub proof fn law_numbers_tell_addresses_apart(a: SocketAddr, b: SocketAddr)
    ensures
        a.numbers() == b.numbers() <==> a == b,
{
}

/// A short address keeps its number. A long one has `last` as its high half and `first` as its
/// low half. The port is the one below 65536 that differs from the one sent by a multiple of it.
pub proof fn law_socket_keeps_every_bit(addr: TcpAddress)
    requires
        addr.complete(),
    ensures
        match (addr.ip->0.ip->0, socket(addr).ip) {
            (Ip::Ipv4(sent), IpAddr::V4(ip)) => ip == sent,
            (Ip::Ipv6 { first, last }, IpAddr::V6(ip)) => {
                &&& ip as int / 0x1_0000_0000_0000_0000 == last
                &&& ip as int % 0x1_0000_0000_0000_0000 == first
            },
            _ => false,
        },
        (addr.port - socket(addr).port) % 0x1_0000 == 0,
        addr.port < 0x1_0000 ==> socket(addr).port == addr.port,
{
}

} // verus!
