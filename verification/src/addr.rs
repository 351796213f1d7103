use vstd::prelude::*;

verus! {

/// A socket address as a tuple of integers: whether it is an IPv6 address, then the IP address,
/// the port, the flow information and the scope id. The last two are zero of an IPv4 address.
pub type AddressKey = (bool, u128, u16, u32, u32);

/// The address of a UDP or TCP endpoint. The IP address is the integer whose bytes, from the most
/// significant one down, are those of the address.
#[derive(Clone, Copy, Debug, PartialEq, Eq, Hash, Structural)]
pub enum SocketAddr {
    V4 { ip: u32, port: u16 },
    V6 { ip6: u128, port: u16, flowinfo: u32, scope_id: u32 },
}

impl SocketAddr {
    /// The address as a tuple of integers.
    pub open spec fn as_key(self) -> AddressKey {
        match self {
            SocketAddr::V4 { ip, port } => (false, ip as u128, port, 0, 0),
            SocketAddr::V6 { ip6, port, flowinfo, scope_id } => (
                true,
                ip6,
                port,
                flowinfo,
                scope_id,
            ),
        }
    }

    /// `self` with the port replaced.
    pub open spec fn with_port(self, port: u16) -> SocketAddr {
        match self {
            SocketAddr::V4 { ip, .. } => SocketAddr::V4 { ip, port },
            SocketAddr::V6 { ip6, flowinfo, scope_id, .. } => SocketAddr::V6 {
                ip6,
                port,
                flowinfo,
                scope_id,
            },
        }
    }

    /// The IPv4 loopback address 127.0.0.1 with the given port.
    pub fn loopback(port: u16) -> (r: Self)
        ensures
            r == (SocketAddr::V4 { ip: 0x7f00_0001, port }),
    {
        SocketAddr::V4 { ip: 0x7f00_0001, port }
    }

    /// Replaces the port.
    pub fn set_port(&mut self, port: u16)
        ensures
            *final(self) == old(self).with_port(port),
    {
        *self = match *self {
            SocketAddr::V4 { ip, .. } => SocketAddr::V4 { ip, port },
            SocketAddr::V6 { ip6, flowinfo, scope_id, .. } => SocketAddr::V6 {
                ip6,
                port,
                flowinfo,
                scope_id,
            },
        };
    }

    /// The address as a tuple of integers.
    pub fn to_key(&self) -> (r: AddressKey)
        ensures
            r == self.as_key(),
    {
        match *self {
            SocketAddr::V4 { ip, port } => (false, ip as u128, port, 0, 0),
            SocketAddr::V6 { ip6, port, flowinfo, scope_id } => (
                true,
                ip6,
                port,
                flowinfo,
                scope_id,
            ),
        }
    }

    /// The address that `key` stands for, where it stands for one.
    pub fn from_key(key: &AddressKey) -> (r: Option<Self>)
        ensures
            r matches Some(addr) ==> addr.as_key() == *key,
            r is None ==> forall|addr: SocketAddr| #[trigger] addr.as_key() != *key,
    {
        let (is_v6, ip, port, flowinfo, scope_id) = *key;
        if is_v6 {
            Some(SocketAddr::V6 { ip6: ip, port, flowinfo, scope_id })
        } else if ip <= 0xffff_ffff && flowinfo == 0 && scope_id == 0 {
            Some(SocketAddr::V4 { ip: ip as u32, port })
        } else {
            None
        }
    }
}

/// Different addresses have different keys.
pub proof fn lemma_keys_tell_addresses_apart(a: SocketAddr, b: SocketAddr)
    ensures
        a.as_key() == b.as_key() <==> a == b,
{
}

/// A key tells the two kinds of address apart and holds all that makes up either.
pub proof fn lemma_key_holds_the_address(
    ip: u32,
    ip6: u128,
    port: u16,
    flowinfo: u32,
    scope_id: u32,
)
    ensures
        (SocketAddr::V4 { ip, port }).as_key() == (false, ip as u128, port, 0u32, 0u32),
        (SocketAddr::V6 { ip6, port, flowinfo, scope_id }).as_key() == (
            true,
            ip6,
            port,
            flowinfo,
            scope_id,
        ),
{
}

/// Replacing the port leaves all else of an address as it was.
pub proof fn lemma_only_the_port_is_replaced(
    ip: u32,
    ip6: u128,
    flowinfo: u32,
    scope_id: u32,
    before: u16,
    port: u16,
)
    ensures
        (SocketAddr::V4 { ip, port: before }).with_port(port) == (SocketAddr::V4 { ip, port }),
        (SocketAddr::V6 { ip6, port: before, flowinfo, scope_id }).with_port(port) == (
        SocketAddr::V6 { ip6, port, flowinfo, scope_id }),
{
}

} // verus!
