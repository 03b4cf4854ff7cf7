//! Filtering clients by address: single addresses and CIDR networks, IPv4
//! and IPv6. Addresses are held as their numbers, the way std converts them
//! (`u32::from(Ipv4Addr)`, `u128::from(Ipv6Addr)`); reading their text form
//! is left to the caller.

use vstd::prelude::*;
use crate::security::IpFilterResult;

verus! {

/// An address, as its number.
#[derive(Debug, Clone, Copy, PartialEq, Eq, Structural)]
pub enum IpAddress {
    V4(u32),
    V6(u128),
}

/// Why a network was refused.
#[derive(Debug, Clone, Copy, PartialEq, Eq, Structural)]
pub enum IpNetworkError {
    /// An IPv4 prefix longer than 32.
    V4PrefixTooLong,
    /// An IPv6 prefix longer than 128.
    V6PrefixTooLong,
}

impl IpNetworkError {
    /// The message of the refusal.
    pub fn message(&self) -> (s: &'static str)
        ensures
            s@ == match *self {
                IpNetworkError::V4PrefixTooLong => "IPv4 prefix length cannot exceed 32"@,
                IpNetworkError::V6PrefixTooLong => "IPv6 prefix length cannot exceed 128"@,
            },
    {
        match self {
            IpNetworkError::V4PrefixTooLong => "IPv4 prefix length cannot exceed 32",
            IpNetworkError::V6PrefixTooLong => "IPv6 prefix length cannot exceed 128",
        }
    }
}

/// A network in CIDR notation: an address and a prefix length.
#[derive(Debug, Clone, Copy, PartialEq, Eq, Structural)]
pub struct IpNetwork {
    network: IpAddress,
    prefix_len: u8,
}

/// Whether two addresses are of one family.
pub open spec fn same_family(a: IpAddress, b: IpAddress) -> bool {
    (a is V4 && b is V4) || (a is V6 && b is V6)
}

/// The IPv4 mask of a prefix: its first `prefix` bits set (none for a
/// zero prefix).
pub open spec fn mask_v4(prefix: u8) -> u32 {
    if prefix == 0 {
        0
    } else {
        !(((1u32 << ((32 - prefix) as u32)) - 1) as u32)
    }
}

/// The IPv6 mask of a prefix: its first `prefix` bits set (none for a
/// zero prefix).
pub open spec fn mask_v6(prefix: u8) -> u128 {
    if prefix == 0 {
        0
    } else {
        !(((1u128 << ((128 - prefix) as u128)) - 1) as u128)
    }
}

/// Whether the address lies in the network: same family, and the same bits
/// under the mask of the prefix; a zero prefix holds its whole family.
pub open spec fn in_network(net: IpAddress, prefix: u8, ip: IpAddress) -> bool {
    match (net, ip) {
        (IpAddress::V4(n), IpAddress::V4(a)) => n & mask_v4(prefix) == a & mask_v4(prefix),
        (IpAddress::V6(n), IpAddress::V6(a)) => n & mask_v6(prefix) == a & mask_v6(prefix),
        _ => false,
    }
}

impl IpNetwork {
    /// The address of the network.
    pub closed spec fn address(&self) -> IpAddress {
        self.network
    }

    /// The prefix length.
    pub closed spec fn prefix(&self) -> u8 {
        self.prefix_len
    }

    /// A network; refused where the prefix is longer than the family's
    /// addresses.
    pub fn new(network: IpAddress, prefix_len: u8) -> (r: Result<IpNetwork, IpNetworkError>)
        ensures
            r matches Ok(n) ==> prefix_fits(n),
            match network {
                IpAddress::V4(_) => if prefix_len > 32 {
                    r == Err::<IpNetwork, IpNetworkError>(IpNetworkError::V4PrefixTooLong)
                } else {
                    r matches Ok(n) && n.address() == network && n.prefix() == prefix_len
                },
                IpAddress::V6(_) => if prefix_len > 128 {
                    r == Err::<IpNetwork, IpNetworkError>(IpNetworkError::V6PrefixTooLong)
                } else {
                    r matches Ok(n) && n.address() == network && n.prefix() == prefix_len
                },
            },
    {
        match network {
            IpAddress::V4(_) => {
                if prefix_len > 32 {
                    return Err(IpNetworkError::V4PrefixTooLong);
                }
            },
            IpAddress::V6(_) => {
                if prefix_len > 128 {
                    return Err(IpNetworkError::V6PrefixTooLong);
                }
            },
        }
        Ok(IpNetwork { network, prefix_len })
    }

    /// Whether the address lies in the network: of its family, and with the
    /// same bits under the mask of the prefix.
    pub fn contains(&self, ip: IpAddress) -> (b: bool)
        requires
            prefix_fits(*self),
        ensures
            b == in_network(self.address(), self.prefix(), ip),
    {
        match (self.network, ip) {
            (IpAddress::V4(net), IpAddress::V4(addr)) => {
                if self.prefix_len == 0 {
                    assert(net & 0u32 == addr & 0u32) by (bit_vector);
                    return true;
                }
                let s: u32 = 32 - self.prefix_len as u32;
                assert((1u32 << s) >= 1) by (bit_vector)
                    requires
                        s < 32,
                ;
                let mask = !((1u32 << s) - 1);
                (net & mask) == (addr & mask)
            },
            (IpAddress::V6(net), IpAddress::V6(addr)) => {
                if self.prefix_len == 0 {
                    assert(net & 0u128 == addr & 0u128) by (bit_vector);
                    return true;
                }
                let s: u128 = 128 - self.prefix_len as u128;
                assert((1u128 << s) >= 1) by (bit_vector)
                    requires
                        s < 128,
                ;
                let mask = !((1u128 << s) - 1);
                (net & mask) == (addr & mask)
            },
            _ => false,
        }
    }
}

/// Whether some network of the list holds the address.
pub open spec fn in_some_network(nets: Seq<IpNetwork>, ip: IpAddress) -> bool {
    exists|k: int| 0 <= k < nets.len() && #[trigger] in_network(nets[k].address(), nets[k].prefix(), ip)
}

/// The addresses and networks allowed to connect.
pub struct IpFilter {
    allowed_ips: Vec<IpAddress>,
    allowed_networks: Vec<IpNetwork>,
    allow_all_when_empty: bool,
}

impl IpFilter {
    /// The addresses allowed, each once.
    pub closed spec fn addresses(&self) -> Seq<IpAddress> {
        self.allowed_ips@
    }

    /// The networks allowed, in the order added.
    pub closed spec fn networks(&self) -> Seq<IpNetwork> {
        self.allowed_networks@
    }

    /// Whether every address is let in while nothing is configured.
    pub closed spec fn open_when_empty(&self) -> bool {
        self.allow_all_when_empty
    }

    /// The addresses are kept without repetition, and each network's
    /// prefix fits its family.
    pub closed spec fn wf(&self) -> bool {
        &&& forall|i: int, j: int| 0 <= i < j < self.allowed_ips@.len() ==> self.allowed_ips@[i] != self.allowed_ips@[j]
        &&& forall|k: int| 0 <= k < self.allowed_networks@.len() ==> #[trigger] prefix_fits(self.allowed_networks@[k])
    }

    /// A filter with nothing allowed yet.
    pub fn empty(allow_all_when_empty: bool) -> (f: Self)
        ensures
            f.wf(),
            f.addresses().len() == 0,
            f.networks().len() == 0,
            f.open_when_empty() == allow_all_when_empty,
    {
        IpFilter { allowed_ips: Vec::new(), allowed_networks: Vec::new(), allow_all_when_empty }
    }

    /// Allows one more address; an address already allowed is kept once.
    pub fn add_allowed_address(&mut self, ip: IpAddress)
        requires
            old(self).wf(),
        ensures
            final(self).wf(),
            final(self).addresses() == (if old(self).addresses().contains(ip) {
                old(self).addresses()
            } else {
                old(self).addresses().push(ip)
            }),
            final(self).networks() == old(self).networks(),
            final(self).open_when_empty() == old(self).open_when_empty(),
    {
        let mut i: usize = 0;
        while i < self.allowed_ips.len()
            invariant
                self.wf(),
                self.allowed_ips@ == old(self).allowed_ips@,
                self.allowed_networks@ == old(self).allowed_networks@,
                self.allow_all_when_empty == old(self).allow_all_when_empty,
                i <= self.allowed_ips@.len(),
                forall|k: int| 0 <= k < i ==> self.allowed_ips@[k] != ip,
            decreases self.allowed_ips@.len() - i,
        {
            if self.allowed_ips[i] == ip {
                assert(old(self).addresses().contains(ip));
                return;
            }
            i = i + 1;
        }
        self.allowed_ips.push(ip);
    }

    /// Allows one more network.
    pub fn add_allowed_network(&mut self, network: IpNetwork)
        requires
            old(self).wf(),
            prefix_fits(network),
        ensures
            final(self).wf(),
            final(self).networks() == old(self).networks().push(network),
            final(self).addresses() == old(self).addresses(),
            final(self).open_when_empty() == old(self).open_when_empty(),
    {
        self.allowed_networks.push(network);
    }

    /// Whether the address may connect: every address where nothing is
    /// configured and that is allowed; else the allowed addresses and the
    /// networks that hold it.
    pub fn check_ip(&self, ip: IpAddress) -> (r: IpFilterResult)
        requires
            self.wf(),
        ensures
            r == (if self.allows_all_spec() || self.addresses().contains(ip) || in_some_network(self.networks(), ip) {
                IpFilterResult::Allowed
            } else {
                IpFilterResult::Blocked
            }),
    {
        if self.allowed_ips.len() == 0 && self.allowed_networks.len() == 0 && self.allow_all_when_empty {
            return IpFilterResult::Allowed;
        }
        let mut i: usize = 0;
        while i < self.allowed_ips.len()
            invariant
                i <= self.allowed_ips@.len(),
                forall|k: int| 0 <= k < i ==> self.allowed_ips@[k] != ip,
            decreases self.allowed_ips@.len() - i,
        {
            if self.allowed_ips[i] == ip {
                assert(self.allowed_ips@[i as int] == ip);
                return IpFilterResult::Allowed;
            }
            i = i + 1;
        }
        assert(!self.addresses().contains(ip));
        let mut j: usize = 0;
        while j < self.allowed_networks.len()
            invariant
                self.wf(),
                j <= self.allowed_networks@.len(),
                forall|k: int| 0 <= k < j ==> !#[trigger] in_network(self.allowed_networks@[k].address(), self.allowed_networks@[k].prefix(), ip),
            decreases self.allowed_networks@.len() - j,
        {
            let n = self.allowed_networks[j];
            assert(prefix_fits(self.allowed_networks@[j as int]));
            if n.contains(ip) {
                return IpFilterResult::Allowed;
            }
            j = j + 1;
        }
        IpFilterResult::Blocked
    }

    /// Whether every address is let in: nothing is configured and the
    /// filter is open then.
    pub open spec fn allows_all_spec(&self) -> bool {
        self.addresses().len() == 0 && self.networks().len() == 0 && self.open_when_empty()
    }

    /// How many addresses are allowed.
    pub fn allowed_ip_count(&self) -> (n: usize)
        ensures
            n == self.addresses().len(),
    {
        self.allowed_ips.len()
    }

    /// How many networks are allowed.
    pub fn allowed_network_count(&self) -> (n: usize)
        ensures
            n == self.networks().len(),
    {
        self.allowed_networks.len()
    }

    /// Whether every address is let in.
    pub fn allows_all(&self) -> (b: bool)
        ensures
            b == self.allows_all_spec(),
    {
        self.allowed_ips.len() == 0 && self.allowed_networks.len() == 0 && self.allow_all_when_empty
    }
}

/// Whether the network's prefix fits its family.
pub open spec fn prefix_fits(n: IpNetwork) -> bool {
    &&& n.address() is V4 ==> n.prefix() <= 32
    &&& n.address() is V6 ==> n.prefix() <= 128
}

} // verus!
