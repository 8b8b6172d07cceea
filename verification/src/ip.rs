//! Plain-value models of IP addresses and CIDR networks.
//!
//! The lookup and probe stages work over these values; the boundary code that
//! talks to sockets converts them to its own address types.

use vstd::prelude::*;

verus! {

/// An IP address held as plain bits: a 32-bit IPv4 address or a 128-bit IPv6
/// address, both in network order.
#[derive(Clone, Copy, PartialEq, Eq, Structural, Debug, Hash)]
pub enum IpAddress {
    V4(u32),
    V6(u128),
}

impl IpAddress {
    /// Whether this address belongs to the IPv4 family.
    pub open spec fn spec_is_v4(self) -> bool {
        matches!(self, IpAddress::V4(_))
    }

    pub fn is_v4(&self) -> (r: bool)
        ensures
            r == self.spec_is_v4(),
    {
        matches!(self, IpAddress::V4(_))
    }
}

/// A CIDR network: a base address together with a prefix length.
#[derive(Clone, Copy, PartialEq, Eq, Structural, Debug, Hash)]
pub struct IpNet {
    pub base: IpAddress,
    pub prefix: u8,
}

} // verus!
