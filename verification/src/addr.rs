//! Network addresses.

use crate::order::{int_order, Order};
use vstd::prelude::*;

verus! {

/// An IP address; the number is the address read as a big-endian integer.
#[derive(Clone, Copy, Debug, PartialEq, Eq, Structural)]
pub enum IpAddr {
    V4(u32),
    V6(u128),
}

/// An address with a port. The flow information and the scope are those of an
/// IPv6 address, and zero for an IPv4 address.
#[derive(Clone, Copy, Debug, PartialEq, Eq, Structural)]
pub struct SocketAddr {
    pub ip: IpAddr,
    pub port: u16,
    pub flowinfo: u32,
    pub scope_id: u32,
}

/// An address with a port, of no flow and no scope.
pub open spec fn socket_of(ip: IpAddr, port: u16) -> SocketAddr {
    SocketAddr { ip, port, flowinfo: 0, scope_id: 0 }
}

impl SocketAddr {
    /// An address with a port, of no flow and no scope.
    pub fn new(ip: IpAddr, port: u16) -> (r: SocketAddr)
        ensures
            r == socket_of(ip, port),
    {
        SocketAddr { ip, port, flowinfo: 0, scope_id: 0 }
    }
}

/// Every IPv4 address comes before every IPv6 address, and within a family
/// the numerically lower address comes first.
pub open spec fn address_order(a: IpAddr, b: IpAddr) -> Order {
    match (a, b) {
        (IpAddr::V4(x), IpAddr::V4(y)) => int_order(x as int, y as int),
        (IpAddr::V6(x), IpAddr::V6(y)) => int_order(x as int, y as int),
        (IpAddr::V4(_), IpAddr::V6(_)) => Order::Less,
        (IpAddr::V6(_), IpAddr::V4(_)) => Order::Greater,
    }
}

impl IpAddr {
    /// Compares two addresses.
    pub fn compare(self, other: IpAddr) -> (r: Order)
        ensures
            r == address_order(self, other),
    {
        match (self, other) {
            (IpAddr::V4(x), IpAddr::V4(y)) => if x < y {
                Order::Less
            } else if x > y {
                Order::Greater
            } else {
                Order::Equal
            },
            (IpAddr::V6(x), IpAddr::V6(y)) => if x < y {
                Order::Less
            } else if x > y {
                Order::Greater
            } else {
                Order::Equal
            },
            (IpAddr::V4(_), IpAddr::V6(_)) => Order::Less,
            (IpAddr::V6(_), IpAddr::V4(_)) => Order::Greater,
        }
    }
}

/// Every IPv4 address is ahead of every IPv6 address, and within a family the
/// lower number is ahead.
pub proof fn addresses_have_an_order(a: IpAddr, b: IpAddr)
    ensures
        a is V4 && b is V6 ==> address_order(a, b) == Order::Less,
        a is V4 && b is V4 && a->V4_0 < b->V4_0 ==> address_order(a, b) == Order::Less,
        a is V6 && b is V6 && a->V6_0 < b->V6_0 ==> address_order(a, b) == Order::Less,
        address_order(a, b) == Order::Equal <==> a == b,
        address_order(a, b) == Order::Less <==> address_order(b, a) == Order::Greater,
{
}

} // verus!
