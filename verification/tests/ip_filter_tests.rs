use crabcache::security::ip_filter::{IpAddress, IpFilter, IpNetwork, IpNetworkError};
use crabcache::security::IpFilterResult;

fn v4(a: u8, b: u8, c: u8, d: u8) -> IpAddress {
    IpAddress::V4(u32::from_be_bytes([a, b, c, d]))
}

fn v6(segments: [u16; 8]) -> IpAddress {
    let mut n: u128 = 0;
    for s in segments {
        n = (n << 16) | s as u128;
    }
    IpAddress::V6(n)
}

fn filter_of(addresses: &[IpAddress], networks: &[(IpAddress, u8)], open: bool) -> IpFilter {
    let mut f = IpFilter::empty(open);
    for a in addresses {
        f.add_allowed_address(*a);
    }
    for (a, p) in networks {
        f.add_allowed_network(IpNetwork::new(*a, *p).unwrap());
    }
    f
}

#[test]
fn test_ip_filter_allow_all() {
    let filter = filter_of(&[], &[], true);
    let test_ips = [
        v4(127, 0, 0, 1),
        v4(192, 168, 1, 1),
        v4(10, 0, 0, 1),
        v6([0, 0, 0, 0, 0, 0, 0, 1]),
        v6([0x2001, 0xdb8, 0, 0, 0, 0, 0, 1]),
    ];
    for ip in test_ips {
        assert_eq!(filter.check_ip(ip), IpFilterResult::Allowed);
    }
}

#[test]
fn test_ip_filter_specific_ips() {
    let allowed = [v4(127, 0, 0, 1), v4(192, 168, 1, 100), v6([0, 0, 0, 0, 0, 0, 0, 1])];
    let filter = filter_of(&allowed, &[], false);
    assert_eq!(filter.check_ip(v4(127, 0, 0, 1)), IpFilterResult::Allowed);
    assert_eq!(filter.check_ip(v4(192, 168, 1, 100)), IpFilterResult::Allowed);
    assert_eq!(filter.check_ip(v6([0, 0, 0, 0, 0, 0, 0, 1])), IpFilterResult::Allowed);
    assert_eq!(filter.check_ip(v4(192, 168, 1, 1)), IpFilterResult::Blocked);
    assert_eq!(filter.check_ip(v4(10, 0, 0, 1)), IpFilterResult::Blocked);
}

#[test]
fn test_ip_filter_cidr() {
    let filter = filter_of(&[], &[(v4(192, 168, 1, 0), 24), (v4(10, 0, 0, 0), 8)], false);
    assert_eq!(filter.check_ip(v4(192, 168, 1, 1)), IpFilterResult::Allowed);
    assert_eq!(filter.check_ip(v4(192, 168, 1, 254)), IpFilterResult::Allowed);
    assert_eq!(filter.check_ip(v4(10, 1, 2, 3)), IpFilterResult::Allowed);
    assert_eq!(filter.check_ip(v4(10, 255, 255, 255)), IpFilterResult::Allowed);
    assert_eq!(filter.check_ip(v4(192, 168, 2, 1)), IpFilterResult::Blocked);
    assert_eq!(filter.check_ip(v4(172, 16, 1, 1)), IpFilterResult::Blocked);
    assert_eq!(filter.check_ip(v4(127, 0, 0, 1)), IpFilterResult::Blocked);
}

#[test]
fn test_ip_network_contains() {
    let network = IpNetwork::new(v4(192, 168, 1, 0), 24).unwrap();
    assert!(network.contains(v4(192, 168, 1, 1)));
    assert!(network.contains(v4(192, 168, 1, 254)));
    assert!(!network.contains(v4(192, 168, 2, 1)));
    assert!(!network.contains(v4(10, 0, 0, 1)));
}

#[test]
fn test_ipv6_network() {
    let network = IpNetwork::new(v6([0x2001, 0xdb8, 0, 0, 0, 0, 0, 0]), 32).unwrap();
    assert!(network.contains(v6([0x2001, 0xdb8, 0, 0, 0, 0, 0, 1])));
    assert!(network.contains(v6([0x2001, 0xdb8, 1, 0, 0, 0, 0, 1])));
    assert!(!network.contains(v6([0x2001, 0xdb9, 0, 0, 0, 0, 0, 1])));
    assert!(!network.contains(v6([0, 0, 0, 0, 0, 0, 0, 1])));
}

#[test]
fn ip_filter_edges() {
    assert_eq!(IpNetwork::new(v4(1, 2, 3, 4), 33), Err(IpNetworkError::V4PrefixTooLong));
    assert_eq!(IpNetwork::new(v6([0; 8]), 129), Err(IpNetworkError::V6PrefixTooLong));
    assert_eq!(IpNetworkError::V4PrefixTooLong.message(), "IPv4 prefix length cannot exceed 32");
    let host = IpNetwork::new(v4(1, 2, 3, 4), 32).unwrap();
    assert!(host.contains(v4(1, 2, 3, 4)));
    assert!(!host.contains(v4(1, 2, 3, 5)));
    let mut f = filter_of(&[v4(1, 1, 1, 1), v4(1, 1, 1, 1)], &[], true);
    assert_eq!(f.allowed_ip_count(), 1);
    assert!(!f.allows_all());
    f.add_allowed_network(host);
    assert_eq!(f.allowed_network_count(), 1);
    assert_eq!(filter_of(&[], &[], false).check_ip(v4(1, 1, 1, 1)), IpFilterResult::Blocked);
}

#[test]
fn zero_prefix_covers_its_family() {
    let net = IpNetwork::new(IpAddress::V4(0), 0).unwrap();
    assert!(net.contains(v4(10, 1, 2, 3)));
    assert!(!net.contains(IpAddress::V6(1)));
    let net6 = IpNetwork::new(IpAddress::V6(0), 0).unwrap();
    assert!(net6.contains(IpAddress::V6(u128::MAX)));
    let mut f = IpFilter::empty(false);
    f.add_allowed_network(net);
    assert_eq!(f.check_ip(IpAddress::V4(1)), IpFilterResult::Allowed);
    assert_eq!(f.check_ip(IpAddress::V6(1)), IpFilterResult::Blocked);
}
