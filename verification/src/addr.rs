//! Addresses and routing decisions.
//!
//! An interface is configured at registration time with an IPv4 address, a
//! network prefix length and a hardware address. A destination is routable
//! through an interface exactly when it lies in the interface's subnet; a
//! listening socket binds to the interface's own address (or to the
//! all-zero wildcard address).

use vstd::prelude::*;

verus! {

/// A TCP endpoint: an IPv4 address together with a port.
#[derive(Clone, Copy, Debug, PartialEq, Eq, Structural)]
pub struct SocketAddress {
    pub ip: u32,
    pub port: u16,
}

/// Addressing configuration of one interface, supplied at registration.
#[derive(Clone, Copy, Debug)]
pub struct InterfaceConfig {
    /// IPv4 address assigned to the interface.
    pub ip: u32,
    /// Network prefix length, at most 32 bits.
    pub prefix_len: u8,
    /// 6-byte hardware address of the interface.
    pub mac: [u8; 6],
}

/// Whether two addresses lie in the same subnet of the given prefix length.
pub open spec fn spec_same_subnet(a: u32, b: u32, prefix_len: u8) -> bool {
    (a as u64) >> ((32 - prefix_len) as u64) == (b as u64) >> ((32 - prefix_len) as u64)
}

/// Whether an interface with configuration `config` accepts a TCP socket
/// bound or directed to `addr`. A listener binds to the interface's own
/// address or to the wildcard address; an outgoing connection needs the
/// destination in the interface's subnet.
pub open spec fn spec_can_route(config: InterfaceConfig, listen: bool, addr: SocketAddress) -> bool {
    if listen {
        addr.ip == config.ip || addr.ip == 0
    } else {
        spec_same_subnet(addr.ip, config.ip, config.prefix_len)
    }
}

/// Routing decision for one interface.
pub fn can_route(config: &InterfaceConfig, listen: bool, addr: &SocketAddress) -> (r: bool)
    requires
        config.prefix_len <= 32,
    ensures
        r == spec_can_route(*config, listen, *addr),
{
    if listen {
        addr.ip == config.ip || addr.ip == 0
    } else {
        let shift: u64 = (32 - config.prefix_len) as u64;
        ((addr.ip as u64) >> shift) == ((config.ip as u64) >> shift)
    }
}

} // verus!
