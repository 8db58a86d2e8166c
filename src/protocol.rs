//! Values exchanged over the administrative and state-query protocols, and
//! the conversion of administratively configured resolvers into DNS records.

use vstd::prelude::*;
use crate::dns::{DnsServer, DnsServerSource, Ipv4SocketAddress, Ipv6SocketAddress, SocketAddress};

verus! {

/// The port DNS servers listen on.
pub const DEFAULT_DNS_PORT: u16 = 53;

/// Identifier of a protocol element: a unique id and a version.
#[derive(Clone, Copy, Debug, PartialEq, Eq, Structural)]
pub struct Id {
    pub uuid: u128,
    pub version: u64,
}

#[derive(Clone, Copy, Debug, PartialEq, Eq, Structural)]
pub enum ErrorCode {
    NotFound,
    NotSupported,
    AlreadyExists,
    Internal,
}

/// An error as carried in a protocol response.
#[derive(Clone, Debug, PartialEq, Eq)]
pub struct RouterError {
    pub code: ErrorCode,
    pub description: Option<String>,
}

/// The role of a logical interface.
#[derive(Clone, Copy, Debug, PartialEq, Eq, Structural)]
pub enum LifRole {
    Wan,
    Lan,
}

/// An IP address as given in a resolver configuration.
#[derive(Clone, Copy, Debug, PartialEq, Eq, Structural)]
pub enum IpAddress {
    Ipv4(u32),
    Ipv6(u128),
}

/// Security toggles; an absent field leaves the device's setting as it is.
#[derive(Clone, Copy, Debug, PartialEq, Eq, Structural)]
pub struct SecurityFeatures {
    pub nat: Option<bool>,
}

/// What the device reports about a logical interface.
#[derive(Clone, Debug, PartialEq, Eq)]
pub struct LifInfo {
    pub element: Id,
    pub name: String,
    pub role: LifRole,
    pub vlan: Option<u16>,
    pub ports: Vec<u32>,
    /// The role-specific properties, in their wire encoding.
    pub properties: Vec<u8>,
}

/// What the device reports about a physical port.
#[derive(Clone, Debug, PartialEq, Eq)]
pub struct PortInfo {
    pub element: Id,
    pub id: u32,
    pub path: String,
}

/// The record an administratively configured resolver address becomes:
/// the default DNS port, no zone, a static source.
pub open spec fn static_server(a: IpAddress) -> DnsServer {
    DnsServer {
        address: match a {
            IpAddress::Ipv4(v4) => SocketAddress::Ipv4(
                Ipv4SocketAddress { address: v4, port: DEFAULT_DNS_PORT },
            ),
            IpAddress::Ipv6(v6) => SocketAddress::Ipv6(
                Ipv6SocketAddress { address: v6, port: DEFAULT_DNS_PORT, zone_index: 0 },
            ),
        },
        source: Some(DnsServerSource::StaticSource),
    }
}

pub open spec fn static_servers(addrs: Seq<IpAddress>) -> Seq<DnsServer> {
    addrs.map_values(|a: IpAddress| static_server(a))
}

/// Converts a resolver address into a static DNS server record.
pub fn from_ip_address(a: IpAddress) -> (r: DnsServer)
    ensures
        r == static_server(a),
{
    let address = match a {
        IpAddress::Ipv4(v4) => SocketAddress::Ipv4(
            Ipv4SocketAddress { address: v4, port: DEFAULT_DNS_PORT },
        ),
        IpAddress::Ipv6(v6) => SocketAddress::Ipv6(
            Ipv6SocketAddress { address: v6, port: DEFAULT_DNS_PORT, zone_index: 0 },
        ),
    };
    DnsServer { address, source: Some(DnsServerSource::StaticSource) }
}

/// Converts each resolver address into a static DNS server record.
pub fn static_servers_of(addrs: &Vec<IpAddress>) -> (r: Vec<DnsServer>)
    ensures
        r@ == static_servers(addrs@),
{
    let mut out: Vec<DnsServer> = Vec::new();
    let mut i: usize = 0;
    while i < addrs.len()
        invariant
            i <= addrs@.len(),
            out@ == static_servers(addrs@.take(i as int)),
        decreases addrs.len() - i,
    {
        out.push(from_ip_address(addrs[i]));
        assert(static_servers(addrs@.take(i + 1)) =~= static_servers(addrs@.take(i as int)).push(
            static_server(addrs@[i as int]),
        ));
        i = i + 1;
    }
    assert(addrs@.take(addrs@.len() as int) =~= addrs@);
    out
}

pub open spec fn widen_ports(ports: Seq<u32>) -> Seq<u64> {
    ports.map_values(|p: u32| p as u64)
}

/// Port numbers as the device identifies ports.
pub fn port_ids(ports: &Vec<u32>) -> (r: Vec<u64>)
    ensures
        r@ == widen_ports(ports@),
{
    let mut out: Vec<u64> = Vec::new();
    let mut i: usize = 0;
    while i < ports.len()
        invariant
            i <= ports@.len(),
            out@ == widen_ports(ports@.take(i as int)),
        decreases ports.len() - i,
    {
        out.push(ports[i] as u64);
        assert(widen_ports(ports@.take(i + 1)) =~= widen_ports(ports@.take(i as int)).push(
            ports@[i as int] as u64,
        ));
        i = i + 1;
    }
    assert(ports@.take(ports@.len() as int) =~= ports@);
    out
}

} // verus!
