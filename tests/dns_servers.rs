use std::cmp::Ordering;

use network_manager::aggregate::DnsServers;
use network_manager::dns::{
    consolidate_servers, DnsServer, DnsServerSource, Ipv4SocketAddress, Ipv6SocketAddress,
    SocketAddress,
};
use network_manager::protocol::DEFAULT_DNS_PORT;

const STATIC_SERVER: DnsServer = DnsServer {
    address: SocketAddress::Ipv4(Ipv4SocketAddress { address: 0x0808_0808, port: DEFAULT_DNS_PORT }),
    source: Some(DnsServerSource::StaticSource),
};
const DHCP_SERVER: DnsServer = DnsServer {
    address: SocketAddress::Ipv4(Ipv4SocketAddress { address: 0x0808_0404, port: DEFAULT_DNS_PORT }),
    source: Some(DnsServerSource::Dhcp { source_interface: Some(1) }),
};
const NDP_SERVER: DnsServer = DnsServer {
    address: SocketAddress::Ipv6(Ipv6SocketAddress {
        address: 0x2001_4860_4860_0000_0000_0000_0000_4444,
        port: DEFAULT_DNS_PORT,
        zone_index: 2,
    }),
    source: Some(DnsServerSource::Ndp { source_interface: Some(2) }),
};
const DHCPV6_SERVER: DnsServer = DnsServer {
    address: SocketAddress::Ipv6(Ipv6SocketAddress {
        address: 0x2002_4860_4860_0000_0000_0000_0000_4444,
        port: DEFAULT_DNS_PORT,
        zone_index: 3,
    }),
    source: Some(DnsServerSource::Dhcpv6 { source_interface: Some(3) }),
};
const UNSPECIFIED_SOURCE_SERVER: DnsServer = DnsServer {
    address: SocketAddress::Ipv6(Ipv6SocketAddress {
        address: 0x2001_4860_4860_0000_0000_0000_0000_8888,
        port: DEFAULT_DNS_PORT,
        zone_index: 4,
    }),
    source: None,
};

fn netstack(servers: Vec<DnsServer>) -> DnsServers {
    let mut all = DnsServers::new();
    all.set_servers("netstack".to_string(), servers);
    all
}

fn v4(address: u32) -> SocketAddress {
    SocketAddress::Ipv4(Ipv4SocketAddress { address, port: DEFAULT_DNS_PORT })
}

#[test]
fn test_dnsservers_consolidation() {
    // Simple deduplication and sorting of repeated servers.
    let servers = netstack(vec![
        DHCP_SERVER,
        DHCPV6_SERVER,
        NDP_SERVER,
        STATIC_SERVER,
        NDP_SERVER,
        DHCPV6_SERVER,
        DHCP_SERVER,
        STATIC_SERVER,
    ]);
    assert_eq!(servers.consolidated(), vec![NDP_SERVER, DHCP_SERVER, DHCPV6_SERVER, STATIC_SERVER]);

    // Deduplication and sorting of same address across different sources.

    // DHCPv6 is not as preferred as NDP so this should not be in the consolidated list.
    let mut dhcpv6_with_ndp_address = NDP_SERVER;
    dhcpv6_with_ndp_address.source = Some(DnsServerSource::Dhcpv6 { source_interface: Some(3) });
    let servers = netstack(vec![
        dhcpv6_with_ndp_address,
        DHCP_SERVER,
        DHCPV6_SERVER,
        NDP_SERVER,
        STATIC_SERVER,
    ]);
    let expected = vec![NDP_SERVER, DHCP_SERVER, DHCPV6_SERVER, STATIC_SERVER];
    assert_eq!(servers.consolidated(), expected);
    let servers = netstack(vec![
        DHCP_SERVER,
        DHCPV6_SERVER,
        NDP_SERVER,
        STATIC_SERVER,
        dhcpv6_with_ndp_address,
    ]);
    assert_eq!(servers.consolidated(), expected);

    // NDP is more preferred than DHCPv6 so `DHCPV6_SERVER` should not be in the consolidated list.
    let mut ndp_with_dhcpv6_address = DHCPV6_SERVER;
    ndp_with_dhcpv6_address.source = Some(DnsServerSource::Ndp { source_interface: Some(3) });
    let servers =
        netstack(vec![ndp_with_dhcpv6_address, DHCP_SERVER, DHCPV6_SERVER, STATIC_SERVER]);
    let expected = vec![ndp_with_dhcpv6_address, DHCP_SERVER, STATIC_SERVER];
    assert_eq!(servers.consolidated(), expected);
    let servers =
        netstack(vec![DHCP_SERVER, DHCPV6_SERVER, STATIC_SERVER, ndp_with_dhcpv6_address]);
    assert_eq!(servers.consolidated(), expected);
}

#[test]
fn test_dns_servers_ordering() {
    assert_eq!(DnsServers::ordering(&NDP_SERVER, &NDP_SERVER), Ordering::Equal);
    assert_eq!(DnsServers::ordering(&DHCP_SERVER, &DHCP_SERVER), Ordering::Equal);
    assert_eq!(DnsServers::ordering(&DHCPV6_SERVER, &DHCPV6_SERVER), Ordering::Equal);
    assert_eq!(DnsServers::ordering(&STATIC_SERVER, &STATIC_SERVER), Ordering::Equal);
    assert_eq!(
        DnsServers::ordering(&UNSPECIFIED_SOURCE_SERVER, &UNSPECIFIED_SOURCE_SERVER),
        Ordering::Equal
    );
    assert_eq!(DnsServers::ordering(&STATIC_SERVER, &UNSPECIFIED_SOURCE_SERVER), Ordering::Equal);

    let servers = [NDP_SERVER, DHCP_SERVER, DHCPV6_SERVER, STATIC_SERVER, UNSPECIFIED_SOURCE_SERVER];
    // The last two servers are not compared: their ordering is equal w.r.t. each other.
    for (i, a) in servers[..servers.len() - 2].iter().enumerate() {
        for b in servers[i + 1..].iter() {
            assert_eq!(DnsServers::ordering(a, b), Ordering::Less);
        }
    }

    let mut servers = vec![DHCPV6_SERVER, DHCP_SERVER, STATIC_SERVER, NDP_SERVER];
    servers.sort_by(DnsServers::ordering);
    assert_eq!(servers, vec![NDP_SERVER, DHCP_SERVER, DHCPV6_SERVER, STATIC_SERVER]);
}

#[test]
fn ordering_ignores_source_interface_and_address() {
    let other_dhcp = DnsServer {
        address: v4(0x0101_0101),
        source: Some(DnsServerSource::Dhcp { source_interface: Some(9) }),
    };
    assert_eq!(DnsServers::ordering(&DHCP_SERVER, &other_dhcp), Ordering::Equal);
    assert_eq!(DnsServers::ordering(&STATIC_SERVER, &NDP_SERVER), Ordering::Greater);
}

#[test]
fn consolidating_twice_gives_the_same_list() {
    let servers = netstack(vec![STATIC_SERVER, DHCP_SERVER, NDP_SERVER, DHCP_SERVER]);
    let once = servers.consolidated();
    assert_eq!(servers.consolidated(), once);
    assert_eq!(consolidate_servers(&once), once);
}

#[test]
fn consolidated_addresses_are_distinct() {
    let mut servers = DnsServers::new();
    servers.set_servers("a".to_string(), vec![STATIC_SERVER, DHCP_SERVER, STATIC_SERVER]);
    servers.set_servers("b".to_string(), vec![DHCP_SERVER, NDP_SERVER, DHCP_SERVER]);
    let out = servers.consolidated();
    assert_eq!(out.len(), 3);
    for (i, a) in out.iter().enumerate() {
        for b in out[i + 1..].iter() {
            assert_ne!(a.address, b.address);
        }
    }
}

#[test]
fn most_preferred_report_of_an_address_wins() {
    let low = DnsServer { address: v4(1), source: Some(DnsServerSource::StaticSource) };
    let high = DnsServer { address: v4(1), source: Some(DnsServerSource::Dhcp { source_interface: None }) };
    assert_eq!(consolidate_servers(&vec![low, high]), vec![high]);
    assert_eq!(consolidate_servers(&vec![high, low]), vec![high]);
}

#[test]
fn swapping_equal_rank_neighbours_keeps_survivors() {
    let a = DnsServer { address: v4(1), source: Some(DnsServerSource::StaticSource) };
    let b = DnsServer { address: v4(2), source: None };
    let c = DnsServer { address: v4(1), source: Some(DnsServerSource::StaticSource) };
    assert_eq!(consolidate_servers(&vec![a, b, c]), vec![a, b]);
    assert_eq!(consolidate_servers(&vec![b, a, c]), vec![b, a]);
}

#[test]
fn output_does_not_depend_on_the_order_origins_report_in() {
    let x = v4(7);
    let y = v4(8);
    let first = DnsServer { address: y, source: Some(DnsServerSource::Dhcp { source_interface: Some(1) }) };
    let second = DnsServer { address: x, source: Some(DnsServerSource::Dhcp { source_interface: Some(2) }) };
    let mut one = DnsServers::new();
    one.set_servers("beta".to_string(), vec![second]);
    one.set_servers("alpha".to_string(), vec![first]);
    let mut two = DnsServers::new();
    two.set_servers("alpha".to_string(), vec![first]);
    two.set_servers("beta".to_string(), vec![second]);
    assert_eq!(one.consolidated(), vec![first, second]);
    assert_eq!(two.consolidated(), vec![first, second]);
}

#[test]
fn a_new_report_replaces_the_origin_list() {
    let mut servers = DnsServers::new();
    servers.set_servers("netstack".to_string(), vec![STATIC_SERVER, DHCP_SERVER]);
    servers.set_servers("netstack".to_string(), vec![NDP_SERVER]);
    assert_eq!(servers.consolidated(), vec![NDP_SERVER]);
    servers.set_servers("netstack".to_string(), vec![]);
    assert_eq!(servers.consolidated(), vec![]);
}

#[test]
fn origins_scenario_with_two_origins() {
    let x_ndp = DnsServer { address: v4(10), source: Some(DnsServerSource::Ndp { source_interface: None }) };
    let x_static = DnsServer { address: v4(10), source: Some(DnsServerSource::StaticSource) };
    let y_dhcp = DnsServer { address: v4(11), source: Some(DnsServerSource::Dhcp { source_interface: None }) };
    let mut servers = DnsServers::new();
    servers.set_servers("A".to_string(), vec![x_ndp]);
    servers.set_servers("B".to_string(), vec![x_static, y_dhcp]);
    assert_eq!(servers.consolidated(), vec![x_ndp, y_dhcp]);
}

#[test]
fn empty_input_consolidates_to_nothing() {
    assert_eq!(DnsServers::new().consolidated(), vec![]);
    assert_eq!(consolidate_servers(&vec![]), vec![]);
}
