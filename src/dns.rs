//! DNS server records and their consolidation into one preference-ordered,
//! address-deduplicated list.

use vstd::prelude::*;

verus! {

/// An IPv4 socket address; `address` holds the four octets big-endian.
#[derive(Clone, Copy, Debug, PartialEq, Eq, Structural)]
pub struct Ipv4SocketAddress {
    pub address: u32,
    pub port: u16,
}

/// An IPv6 socket address; `address` holds the sixteen octets big-endian.
#[derive(Clone, Copy, Debug, PartialEq, Eq, Structural)]
pub struct Ipv6SocketAddress {
    pub address: u128,
    pub port: u16,
    pub zone_index: u64,
}

#[derive(Clone, Copy, Debug, PartialEq, Eq, Structural)]
pub enum SocketAddress {
    Ipv4(Ipv4SocketAddress),
    Ipv6(Ipv6SocketAddress),
}

/// The mechanism through which a DNS server was learned.
#[derive(Clone, Copy, Debug, PartialEq, Eq, Structural)]
pub enum DnsServerSource {
    StaticSource,
    Dhcp { source_interface: Option<u64> },
    Ndp { source_interface: Option<u64> },
    Dhcpv6 { source_interface: Option<u64> },
}

/// A DNS server: its address and, if known, where it was learned from.
#[derive(Clone, Copy, Debug, PartialEq, Eq, Structural)]
pub struct DnsServer {
    pub address: SocketAddress,
    pub source: Option<DnsServerSource>,
}

/// Preference rank of a source, lower is more preferred: NDP, DHCPv4,
/// DHCPv6, then static. An unspecified source counts as static.
pub open spec fn rank(source: Option<DnsServerSource>) -> nat {
    match source {
        Some(DnsServerSource::Ndp { .. }) => 0,
        Some(DnsServerSource::Dhcp { .. }) => 1,
        Some(DnsServerSource::Dhcpv6 { .. }) => 2,
        _ => 3,
    }
}

pub open spec fn server_rank(s: DnsServer) -> nat {
    rank(s.source)
}

/// The servers of `s` whose rank is `r`, in their order in `s`.
pub open spec fn with_rank(s: Seq<DnsServer>, r: nat) -> Seq<DnsServer>
    decreases s.len(),
{
    if s.len() == 0 {
        s
    } else {
        let prefix = with_rank(s.drop_last(), r);
        if server_rank(s.last()) == r {
            prefix.push(s.last())
        } else {
            prefix
        }
    }
}

/// `s` stably sorted by rank: each rank's servers, most preferred rank first.
pub open spec fn by_preference(s: Seq<DnsServer>) -> Seq<DnsServer> {
    with_rank(s, 0) + with_rank(s, 1) + with_rank(s, 2) + with_rank(s, 3)
}

pub open spec fn has_address(s: Seq<DnsServer>, a: SocketAddress) -> bool {
    exists|j: int| 0 <= j < s.len() && (#[trigger] s[j]).address == a
}

/// `s` keeping only the first server seen for each address.
pub open spec fn first_per_address(s: Seq<DnsServer>) -> Seq<DnsServer>
    decreases s.len(),
{
    if s.len() == 0 {
        s
    } else {
        let prefix = first_per_address(s.drop_last());
        if has_address(s.drop_last(), s.last().address) {
            prefix
        } else {
            prefix.push(s.last())
        }
    }
}

/// The consolidated list: sorted by preference, then one server per address.
pub open spec fn consolidate(s: Seq<DnsServer>) -> Seq<DnsServer> {
    first_per_address(by_preference(s))
}

pub open spec fn distinct_addresses(s: Seq<DnsServer>) -> bool {
    forall|i: int, j: int|
        0 <= i < j < s.len() ==> (#[trigger] s[i]).address != (#[trigger] s[j]).address
}

pub open spec fn rank_ordering(a: DnsServer, b: DnsServer) -> std::cmp::Ordering {
    if server_rank(a) < server_rank(b) {
        std::cmp::Ordering::Less
    } else if server_rank(a) > server_rank(b) {
        std::cmp::Ordering::Greater
    } else {
        std::cmp::Ordering::Equal
    }
}

/// The rank of a server's source (see `rank`).
pub fn source_rank(s: &DnsServer) -> (r: u8)
    ensures
        r as nat == server_rank(*s),
{
    match s.source {
        Some(DnsServerSource::Ndp { .. }) => 0,
        Some(DnsServerSource::Dhcp { .. }) => 1,
        Some(DnsServerSource::Dhcpv6 { .. }) => 2,
        _ => 3,
    }
}

proof fn lemma_first_per_address_addresses(s: Seq<DnsServer>)
    ensures
        forall|a: SocketAddress|
            #[trigger] has_address(first_per_address(s), a) == has_address(s, a),
    decreases s.len(),
{
    if s.len() > 0 {
        let t = s.drop_last();
        lemma_first_per_address_addresses(t);
        assert forall|a: SocketAddress|
            #[trigger] has_address(first_per_address(s), a) == has_address(s, a) by {
            let f = first_per_address(s);
            let ft = first_per_address(t);
            if has_address(s, a) {
                let j = choose|j: int| 0 <= j < s.len() && (#[trigger] s[j]).address == a;
                if j < t.len() {
                    assert(t[j] == s[j]);
                    assert(has_address(ft, a));
                    let k = choose|k: int| 0 <= k < ft.len() && (#[trigger] ft[k]).address == a;
                    assert(f[k] == ft[k]);
                } else if has_address(t, a) {
                    assert(has_address(ft, a));
                    let k = choose|k: int| 0 <= k < ft.len() && (#[trigger] ft[k]).address == a;
                    assert(f[k] == ft[k]);
                } else {
                    assert(f[ft.len() as int] == s.last());
                }
            }
            if has_address(f, a) {
                let k = choose|k: int| 0 <= k < f.len() && (#[trigger] f[k]).address == a;
                if k < ft.len() {
                    assert(f[k] == ft[k]);
                    assert(has_address(ft, a));
                    assert(has_address(t, a));
                    let j = choose|j: int| 0 <= j < t.len() && (#[trigger] t[j]).address == a;
                    assert(s[j] == t[j]);
                } else {
                    assert(s[s.len() - 1] == s.last());
                }
            }
        }
    }
}

proof fn lemma_first_per_address_distinct(s: Seq<DnsServer>)
    ensures
        distinct_addresses(first_per_address(s)),
    decreases s.len(),
{
    if s.len() > 0 {
        let t = s.drop_last();
        lemma_first_per_address_distinct(t);
        lemma_first_per_address_addresses(t);
        let ft = first_per_address(t);
        if !has_address(t, s.last().address) {
            let f = ft.push(s.last());
            assert forall|i: int, j: int|
                0 <= i < j < f.len() implies (#[trigger] f[i]).address
                    != (#[trigger] f[j]).address by {
                if j == ft.len() {
                    assert(f[i] == ft[i]);
                    if ft[i].address == s.last().address {
                        assert(has_address(ft, s.last().address));
                    }
                } else {
                    assert(f[i] == ft[i] && f[j] == ft[j]);
                }
            }
        }
    }
}

proof fn lemma_with_rank_step(s: Seq<DnsServer>, i: int, r: nat)
    requires
        0 <= i < s.len(),
    ensures
        with_rank(s.subrange(0, i + 1), r) == if server_rank(s[i]) == r {
            with_rank(s.subrange(0, i), r).push(s[i])
        } else {
            with_rank(s.subrange(0, i), r)
        },
{
    assert(s.subrange(0, i + 1).drop_last() =~= s.subrange(0, i));
}

proof fn lemma_first_per_address_step(s: Seq<DnsServer>, i: int)
    requires
        0 <= i < s.len(),
    ensures
        first_per_address(s.subrange(0, i + 1)) == if has_address(s.subrange(0, i), s[i].address) {
            first_per_address(s.subrange(0, i))
        } else {
            first_per_address(s.subrange(0, i)).push(s[i])
        },
{
    assert(s.subrange(0, i + 1).drop_last() =~= s.subrange(0, i));
}

/// Whether some server in `servers` has the address `a`.
fn contains_address(servers: &Vec<DnsServer>, a: &SocketAddress) -> (r: bool)
    ensures
        r == has_address(servers@, *a),
{
    let mut j: usize = 0;
    while j < servers.len()
        invariant
            j <= servers.len(),
            forall|k: int| 0 <= k < j ==> (#[trigger] servers@[k]).address != *a,
        decreases servers.len() - j,
    {
        if servers[j].address == *a {
            return true;
        }
        j = j + 1;
    }
    false
}

/// Stably sorts `servers` by the rank of their source, most preferred first.
pub fn sort_by_preference(servers: &Vec<DnsServer>) -> (r: Vec<DnsServer>)
    ensures
        r@ == by_preference(servers@),
{
    let mut out: Vec<DnsServer> = Vec::new();
    let mut r: u8 = 0;
    while r < 4
        invariant
            r <= 4,
            out@ == (if r == 0 {
                Seq::empty()
            } else if r == 1 {
                with_rank(servers@, 0)
            } else if r == 2 {
                with_rank(servers@, 0) + with_rank(servers@, 1)
            } else if r == 3 {
                with_rank(servers@, 0) + with_rank(servers@, 1) + with_rank(servers@, 2)
            } else {
                by_preference(servers@)
            }),
        decreases 4 - r,
    {
        let ghost before = out@;
        let mut i: usize = 0;
        while i < servers.len()
            invariant
                i <= servers.len(),
                out@ == before + with_rank(servers@.subrange(0, i as int), r as nat),
            decreases servers.len() - i,
        {
            proof {
                lemma_with_rank_step(servers@, i as int, r as nat);
            }
            if source_rank(&servers[i]) == r {
                out.push(servers[i]);
                assert(out@ =~= before + with_rank(servers@.subrange(0, i + 1), r as nat));
            }
            i = i + 1;
        }
        assert(servers@.subrange(0, servers.len() as int) =~= servers@);
        r = r + 1;
    }
    out
}

/// Keeps the first server of each address, in order.
pub fn dedup_by_address(servers: &Vec<DnsServer>) -> (r: Vec<DnsServer>)
    ensures
        r@ == first_per_address(servers@),
        distinct_addresses(r@),
{
    let mut out: Vec<DnsServer> = Vec::new();
    let mut i: usize = 0;
    while i < servers.len()
        invariant
            i <= servers.len(),
            out@ == first_per_address(servers@.subrange(0, i as int)),
        decreases servers.len() - i,
    {
        proof {
            lemma_first_per_address_step(servers@, i as int);
            lemma_first_per_address_addresses(servers@.subrange(0, i as int));
        }
        if !contains_address(&out, &servers[i].address) {
            out.push(servers[i]);
        }
        i = i + 1;
    }
    proof {
        assert(servers@.subrange(0, servers.len() as int) =~= servers@);
        lemma_first_per_address_distinct(servers@);
    }
    out
}


proof fn lemma_with_rank_members(s: Seq<DnsServer>, r: nat)
    ensures
        forall|k: int|
            0 <= k < with_rank(s, r).len() ==> server_rank(#[trigger] with_rank(s, r)[k]) == r
                && s.contains(with_rank(s, r)[k]),
        forall|i: int|
            0 <= i < s.len() && server_rank(#[trigger] s[i]) == r ==> with_rank(s, r).contains(s[i]),
    decreases s.len(),
{
    if s.len() > 0 {
        let t = s.drop_last();
        lemma_with_rank_members(t, r);
        let w = with_rank(s, r);
        let wt = with_rank(t, r);
        assert forall|k: int| 0 <= k < w.len() implies server_rank(#[trigger] w[k]) == r
            && s.contains(w[k]) by {
            if k < wt.len() {
                assert(w[k] == wt[k]);
                let m = choose|m: int| 0 <= m < t.len() && t[m] == wt[k];
                assert(s[m] == t[m]);
            } else {
                assert(s[s.len() - 1] == s.last());
            }
        }
        assert forall|i: int| 0 <= i < s.len() && server_rank(#[trigger] s[i]) == r implies w.contains(
            s[i],
        ) by {
            if i < t.len() {
                assert(t[i] == s[i]);
                let k = choose|k: int| 0 <= k < wt.len() && wt[k] == t[i];
                assert(w[k] == wt[k]);
            } else {
                assert(w[w.len() - 1] == s.last());
            }
        }
    }
}

pub open spec fn sorted_by_rank(s: Seq<DnsServer>) -> bool {
    forall|i: int, j: int|
        0 <= i <= j < s.len() ==> server_rank(#[trigger] s[i]) <= server_rank(#[trigger] s[j])
}

proof fn lemma_by_preference_sorted(s: Seq<DnsServer>)
    ensures
        sorted_by_rank(by_preference(s)),
        forall|k: int|
            0 <= k < by_preference(s).len() ==> s.contains(#[trigger] by_preference(s)[k]),
        forall|i: int|
            0 <= i < s.len() ==> exists|k: int|
                0 <= k < by_preference(s).len() && by_preference(s)[k] == #[trigger] s[i],
{
    lemma_with_rank_members(s, 0);
    lemma_with_rank_members(s, 1);
    lemma_with_rank_members(s, 2);
    lemma_with_rank_members(s, 3);
    let w0 = with_rank(s, 0);
    let w1 = with_rank(s, 1);
    let w2 = with_rank(s, 2);
    let w3 = with_rank(s, 3);
    let b = by_preference(s);
    let l0 = w0.len() as int;
    let l1 = l0 + w1.len();
    let l2 = l1 + w2.len();
    assert forall|k: int| 0 <= k < b.len() implies server_rank(#[trigger] b[k]) == (if k < l0 {
        0nat
    } else if k < l1 {
        1
    } else if k < l2 {
        2
    } else {
        3
    }) && s.contains(b[k]) by {
        if k < l0 {
            assert(b[k] == w0[k]);
        } else if k < l1 {
            assert(b[k] == w1[k - l0]);
        } else if k < l2 {
            assert(b[k] == w2[k - l1]);
        } else {
            assert(b[k] == w3[k - l2]);
        }
    }
    assert forall|i: int| 0 <= i < s.len() implies exists|k: int|
        0 <= k < b.len() && b[k] == #[trigger] s[i] by {
        let r = server_rank(s[i]);
        if r == 0 {
            let k = choose|k: int| 0 <= k < w0.len() && w0[k] == s[i];
            assert(b[k] == w0[k]);
        } else if r == 1 {
            let k = choose|k: int| 0 <= k < w1.len() && w1[k] == s[i];
            assert(b[l0 + k] == w1[k]);
        } else if r == 2 {
            let k = choose|k: int| 0 <= k < w2.len() && w2[k] == s[i];
            assert(b[l1 + k] == w2[k]);
        } else {
            let k = choose|k: int| 0 <= k < w3.len() && w3[k] == s[i];
            assert(b[l2 + k] == w3[k]);
        }
    }
}

/// Each server kept by `first_per_address` is a server of `s`.
proof fn lemma_first_per_address_members(s: Seq<DnsServer>)
    ensures
        forall|k: int|
            0 <= k < first_per_address(s).len() ==> s.contains(#[trigger] first_per_address(s)[k]),
    decreases s.len(),
{
    if s.len() > 0 {
        let t = s.drop_last();
        lemma_first_per_address_members(t);
        let f = first_per_address(s);
        let ft = first_per_address(t);
        assert forall|k: int| 0 <= k < f.len() implies s.contains(#[trigger] f[k]) by {
            if k < ft.len() {
                assert(f[k] == ft[k]);
                let m = choose|m: int| 0 <= m < t.len() && t[m] == ft[k];
                assert(s[m] == t[m]);
            } else {
                assert(s[s.len() - 1] == f[k]);
            }
        }
    }
}

/// Some kept server, found at or before position `j` of `s`, has the address
/// of `s[j]`.
pub open spec fn kept_at_or_before(s: Seq<DnsServer>, j: int) -> bool {
    exists|k: int, m: int|
        0 <= k < first_per_address(s).len() && 0 <= m <= j && #[trigger] first_per_address(s)[k]
            == #[trigger] s[m] && s[m].address == s[j].address
}

proof fn lemma_first_per_address_covers(s: Seq<DnsServer>)
    ensures
        forall|j: int| 0 <= j < s.len() ==> #[trigger] kept_at_or_before(s, j),
    decreases s.len(),
{
    if s.len() > 0 {
        let t = s.drop_last();
        lemma_first_per_address_covers(t);
        let f = first_per_address(s);
        let ft = first_per_address(t);
        assert forall|j: int| 0 <= j < s.len() implies #[trigger] kept_at_or_before(s, j) by {
            if j < t.len() {
                assert(kept_at_or_before(t, j));
                let (k, m) = choose|k: int, m: int|
                    0 <= k < ft.len() && 0 <= m <= j && #[trigger] ft[k] == #[trigger] t[m]
                        && t[m].address == t[j].address;
                assert(f[k] == ft[k] && s[m] == t[m] && s[j] == t[j]);
            } else if has_address(t, s.last().address) {
                let j2 = choose|j2: int|
                    0 <= j2 < t.len() && (#[trigger] t[j2]).address == s.last().address;
                assert(kept_at_or_before(t, j2));
                let (k, m) = choose|k: int, m: int|
                    0 <= k < ft.len() && 0 <= m <= j2 && #[trigger] ft[k] == #[trigger] t[m]
                        && t[m].address == t[j2].address;
                assert(f[k] == ft[k] && s[m] == t[m]);
            } else {
                assert(f[ft.len() as int] == s[j]);
            }
        }
    }
}

proof fn lemma_consolidate_keeps_one(s: Seq<DnsServer>, i: int)
    requires
        0 <= i < s.len(),
    ensures
        exists|k: int|
            0 <= k < consolidate(s).len() && (#[trigger] consolidate(s)[k]).address == s[i].address
                && server_rank(consolidate(s)[k]) <= server_rank(s[i]),
{
    let b = by_preference(s);
    let c = consolidate(s);
    lemma_by_preference_sorted(s);
    lemma_first_per_address_covers(b);
    let j = choose|j: int| 0 <= j < b.len() && b[j] == s[i];
    assert(kept_at_or_before(b, j));
    let (k, m) = choose|k: int, m: int|
        0 <= k < c.len() && 0 <= m <= j && #[trigger] c[k] == #[trigger] b[m] && b[m].address
            == b[j].address;
    assert(server_rank(b[m]) <= server_rank(b[j]));
}

proof fn lemma_consolidate_members(s: Seq<DnsServer>)
    ensures
        forall|k: int| 0 <= k < consolidate(s).len() ==> s.contains(#[trigger] consolidate(s)[k]),
{
    let b = by_preference(s);
    let c = consolidate(s);
    lemma_by_preference_sorted(s);
    lemma_first_per_address_members(b);
    assert forall|k: int| 0 <= k < c.len() implies s.contains(#[trigger] c[k]) by {
        assert(b.contains(c[k]));
        let m = choose|m: int| 0 <= m < b.len() && b[m] == c[k];
        assert(s.contains(b[m]));
    }
}

/// Every reported address appears in the consolidated list, carried by a
/// reported server whose source is at least as preferred as any other
/// report of that address.
pub proof fn lemma_consolidate_keeps_most_preferred(s: Seq<DnsServer>)
    ensures
        forall|i: int|
            0 <= i < s.len() ==> exists|k: int|
                0 <= k < consolidate(s).len() && (#[trigger] consolidate(s)[k]).address
                    == (#[trigger] s[i]).address && server_rank(consolidate(s)[k]) <= server_rank(
                    s[i],
                ),
        forall|k: int| 0 <= k < consolidate(s).len() ==> s.contains(#[trigger] consolidate(s)[k]),
{
    assert forall|i: int| 0 <= i < s.len() implies exists|k: int|
        0 <= k < consolidate(s).len() && (#[trigger] consolidate(s)[k]).address
            == (#[trigger] s[i]).address && server_rank(consolidate(s)[k]) <= server_rank(
            s[i],
        ) by {
        lemma_consolidate_keeps_one(s, i);
    }
    lemma_consolidate_members(s);
}

proof fn lemma_first_per_address_of_distinct(t: Seq<DnsServer>)
    requires
        distinct_addresses(t),
    ensures
        first_per_address(t) == t,
    decreases t.len(),
{
    if t.len() > 0 {
        let u = t.drop_last();
        assert(distinct_addresses(u)) by {
            assert forall|i: int, j: int| 0 <= i < j < u.len() implies (#[trigger] u[i]).address
                != (#[trigger] u[j]).address by {
                assert(u[i] == t[i] && u[j] == t[j]);
            }
        }
        lemma_first_per_address_of_distinct(u);
        if has_address(u, t.last().address) {
            let j = choose|j: int| 0 <= j < u.len() && (#[trigger] u[j]).address == t.last().address;
            assert(t[j] == u[j]);
            assert(t[j].address != t[t.len() - 1].address);
        }
        assert(u.push(t.last()) =~= t);
    }
}

proof fn lemma_with_rank_empty_above(t: Seq<DnsServer>, top: nat, r: nat)
    requires
        forall|i: int| 0 <= i < t.len() ==> server_rank(#[trigger] t[i]) <= top,
        top < r,
    ensures
        with_rank(t, r).len() == 0,
{
    lemma_with_rank_members(t, r);
    if with_rank(t, r).len() > 0 {
        let w = with_rank(t, r);
        assert(server_rank(w[0]) == r);
        let m = choose|m: int| 0 <= m < t.len() && t[m] == w[0];
    }
}

proof fn lemma_by_preference_of_sorted(t: Seq<DnsServer>)
    requires
        sorted_by_rank(t),
    ensures
        by_preference(t) == t,
    decreases t.len(),
{
    if t.len() > 0 {
        let u = t.drop_last();
        let x = t.last();
        let top = server_rank(x);
        assert(sorted_by_rank(u)) by {
            assert forall|i: int, j: int| 0 <= i <= j < u.len() implies server_rank(#[trigger] u[i])
                <= server_rank(#[trigger] u[j]) by {
                assert(u[i] == t[i] && u[j] == t[j]);
            }
        }
        lemma_by_preference_of_sorted(u);
        assert forall|i: int| 0 <= i < u.len() implies server_rank(#[trigger] u[i]) <= top by {
            assert(u[i] == t[i]);
            assert(t[t.len() - 1] == x);
        }
        assert forall|r: nat| top < r implies #[trigger] with_rank(u, r).len() == 0 by {
            lemma_with_rank_empty_above(u, top, r);
        }
        assert(with_rank(t, 0) == if top == 0 { with_rank(u, 0).push(x) } else { with_rank(u, 0) });
        assert(with_rank(t, 1) == if top == 1 { with_rank(u, 1).push(x) } else { with_rank(u, 1) });
        assert(with_rank(t, 2) == if top == 2 { with_rank(u, 2).push(x) } else { with_rank(u, 2) });
        assert(with_rank(t, 3) == if top == 3 { with_rank(u, 3).push(x) } else { with_rank(u, 3) });
        assert(top <= 3);
        if top == 0 {
            assert(with_rank(u, 1).len() == 0 && with_rank(u, 2).len() == 0 && with_rank(u, 3).len() == 0);
        } else if top == 1 {
            assert(with_rank(u, 2).len() == 0 && with_rank(u, 3).len() == 0);
        } else if top == 2 {
            assert(with_rank(u, 3).len() == 0);
        }
        assert(by_preference(t) =~= by_preference(u).push(x));
        assert(u.push(x) =~= t);
    }
}

proof fn lemma_first_per_address_sorted(t: Seq<DnsServer>)
    requires
        sorted_by_rank(t),
    ensures
        sorted_by_rank(first_per_address(t)),
    decreases t.len(),
{
    if t.len() > 0 {
        let u = t.drop_last();
        let x = t.last();
        assert(sorted_by_rank(u)) by {
            assert forall|i: int, j: int| 0 <= i <= j < u.len() implies server_rank(#[trigger] u[i])
                <= server_rank(#[trigger] u[j]) by {
                assert(u[i] == t[i] && u[j] == t[j]);
            }
        }
        lemma_first_per_address_sorted(u);
        lemma_first_per_address_members(u);
        let fu = first_per_address(u);
        if !has_address(u, x.address) {
            let f = fu.push(x);
            assert forall|i: int, j: int| 0 <= i <= j < f.len() implies server_rank(#[trigger] f[i])
                <= server_rank(#[trigger] f[j]) by {
                if j == fu.len() {
                    if i < fu.len() {
                        assert(u.contains(fu[i]));
                        let m = choose|m: int| 0 <= m < u.len() && u[m] == fu[i];
                        assert(t[m] == u[m]);
                        assert(t[t.len() - 1] == x);
                    }
                } else {
                    assert(f[i] == fu[i] && f[j] == fu[j]);
                }
            }
        }
    }
}

/// Consolidating an already consolidated list changes nothing.
pub proof fn lemma_consolidate_idempotent(s: Seq<DnsServer>)
    ensures
        consolidate(consolidate(s)) == consolidate(s),
{
    let c = consolidate(s);
    lemma_by_preference_sorted(s);
    lemma_first_per_address_sorted(by_preference(s));
    lemma_first_per_address_distinct(by_preference(s));
    lemma_by_preference_of_sorted(c);
    lemma_first_per_address_of_distinct(c);
}

/// `s` with the neighbours at `i` and `i + 1` exchanged.
pub open spec fn swap_adjacent(s: Seq<DnsServer>, i: int) -> Seq<DnsServer> {
    s.update(i, s[i + 1]).update(i + 1, s[i])
}

proof fn lemma_with_rank_concat(a: Seq<DnsServer>, b: Seq<DnsServer>, r: nat)
    ensures
        with_rank(a + b, r) == with_rank(a, r) + with_rank(b, r),
    decreases b.len(),
{
    if b.len() == 0 {
        assert(a + b =~= a);
        assert(with_rank(a, r) + with_rank(b, r) =~= with_rank(a, r));
    } else {
        lemma_with_rank_concat(a, b.drop_last(), r);
        assert((a + b).drop_last() =~= a + b.drop_last());
        assert((a + b).last() == b.last());
        if server_rank(b.last()) == r {
            assert(with_rank(a, r) + with_rank(b, r) =~= (with_rank(a, r) + with_rank(
                b.drop_last(),
                r,
            )).push(b.last()));
        }
    }
}

proof fn lemma_with_rank_pair(x: DnsServer, y: DnsServer, r: nat)
    ensures
        with_rank(seq![x, y], r) == if server_rank(x) == r && server_rank(y) == r {
            seq![x, y]
        } else if server_rank(x) == r {
            seq![x]
        } else if server_rank(y) == r {
            seq![y]
        } else {
            Seq::<DnsServer>::empty()
        },
{
    let e = Seq::<DnsServer>::empty();
    assert(seq![x, y].drop_last() =~= seq![x]);
    assert(seq![x].drop_last() =~= e);
    assert(seq![x, y].last() == y);
    assert(seq![x].last() == x);
    assert(e.push(x) =~= seq![x]);
    assert(e.push(y) =~= seq![y]);
    assert(seq![x].push(y) =~= seq![x, y]);
    assert(with_rank(e, r) == e);
    let wx = with_rank(seq![x], r);
    assert(wx == if server_rank(x) == r {
        seq![x]
    } else {
        e
    });
}

/// Exchanging equal-rank neighbours in the input exchanges two neighbours
/// of the same rank in the preference-sorted sequence.
proof fn lemma_by_preference_swap(s: Seq<DnsServer>, i: int) -> (q: int)
    requires
        0 <= i,
        i + 1 < s.len(),
        server_rank(s[i]) == server_rank(s[i + 1]),
    ensures
        0 <= q,
        q + 1 < by_preference(s).len(),
        by_preference(s)[q] == s[i],
        by_preference(s)[q + 1] == s[i + 1],
        by_preference(swap_adjacent(s, i)) == swap_adjacent(by_preference(s), q),
{
    let x = s[i];
    let y = s[i + 1];
    let rk = server_rank(x);
    let a = s.take(i);
    let b = s.skip(i + 2);
    let t = swap_adjacent(s, i);
    assert(s =~= a + seq![x, y] + b);
    assert(t =~= a + seq![y, x] + b);
    assert forall|r: nat| r != rk implies #[trigger] with_rank(t, r) == with_rank(s, r) by {
        lemma_with_rank_concat(a + seq![x, y], b, r);
        lemma_with_rank_concat(a, seq![x, y], r);
        lemma_with_rank_concat(a + seq![y, x], b, r);
        lemma_with_rank_concat(a, seq![y, x], r);
        lemma_with_rank_pair(x, y, r);
        lemma_with_rank_pair(y, x, r);
    }
    lemma_with_rank_concat(a + seq![x, y], b, rk);
    lemma_with_rank_concat(a, seq![x, y], rk);
    lemma_with_rank_concat(a + seq![y, x], b, rk);
    lemma_with_rank_concat(a, seq![y, x], rk);
    lemma_with_rank_pair(x, y, rk);
    lemma_with_rank_pair(y, x, rk);
    let wa = with_rank(a, rk);
    let wb = with_rank(b, rk);
    let p = wa.len() as int;
    let ws = with_rank(s, rk);
    let wt = with_rank(t, rk);
    assert(ws =~= wa + seq![x, y] + wb);
    assert(wt =~= wa + seq![y, x] + wb);
    assert(wt =~= swap_adjacent(ws, p));
    let w0 = with_rank(s, 0);
    let w1 = with_rank(s, 1);
    let w2 = with_rank(s, 2);
    let w3 = with_rank(s, 3);
    let off = if rk == 0 {
        0
    } else if rk == 1 {
        w0.len() as int
    } else if rk == 2 {
        (w0.len() + w1.len()) as int
    } else {
        (w0.len() + w1.len() + w2.len()) as int
    };
    let q = off + p;
    assert(rk <= 3);
    if rk == 0 {
        assert(with_rank(t, 1) == w1 && with_rank(t, 2) == w2 && with_rank(t, 3) == w3);
        assert(by_preference(t) =~= swap_adjacent(by_preference(s), q));
    } else if rk == 1 {
        assert(with_rank(t, 0) == w0 && with_rank(t, 2) == w2 && with_rank(t, 3) == w3);
        assert(by_preference(t) =~= swap_adjacent(by_preference(s), q));
    } else if rk == 2 {
        assert(with_rank(t, 0) == w0 && with_rank(t, 1) == w1 && with_rank(t, 3) == w3);
        assert(by_preference(t) =~= swap_adjacent(by_preference(s), q));
    } else {
        assert(with_rank(t, 0) == w0 && with_rank(t, 1) == w1 && with_rank(t, 2) == w2);
        assert(by_preference(t) =~= swap_adjacent(by_preference(s), q));
    }
    q
}

/// `t[j]` is the first server of `t` with its address.
pub open spec fn first_at(t: Seq<DnsServer>, j: int) -> bool {
    !has_address(t.take(j), t[j].address)
}

proof fn lemma_first_per_address_contains(t: Seq<DnsServer>)
    ensures
        forall|v: DnsServer|
            #[trigger] first_per_address(t).contains(v) <==> exists|j: int|
                0 <= j < t.len() && t[j] == v && #[trigger] first_at(t, j),
    decreases t.len(),
{
    if t.len() > 0 {
        let u = t.drop_last();
        let x = t.last();
        lemma_first_per_address_contains(u);
        let fu = first_per_address(u);
        let f = first_per_address(t);
        assert(t.take(t.len() - 1) =~= u);
        assert forall|j: int| 0 <= j < u.len() implies #[trigger] first_at(t, j) == first_at(u, j)
            by {
            assert(t.take(j) =~= u.take(j));
            assert(t[j] == u[j]);
        }
        assert forall|v: DnsServer| #[trigger] f.contains(v) <==> exists|j: int|
            0 <= j < t.len() && t[j] == v && #[trigger] first_at(t, j) by {
            if f.contains(v) {
                let k = choose|k: int| 0 <= k < f.len() && f[k] == v;
                if k < fu.len() {
                    assert(fu[k] == f[k]);
                    assert(fu.contains(v));
                    let j = choose|j: int| 0 <= j < u.len() && u[j] == v && #[trigger] first_at(u, j);
                    assert(first_at(t, j) && t[j] == v);
                } else {
                    assert(v == x);
                    assert(first_at(t, t.len() - 1));
                }
            }
            if exists|j: int| 0 <= j < t.len() && t[j] == v && #[trigger] first_at(t, j) {
                let j = choose|j: int| 0 <= j < t.len() && t[j] == v && #[trigger] first_at(t, j);
                if j < u.len() {
                    assert(first_at(u, j) && u[j] == v);
                    assert(fu.contains(v));
                    let k = choose|k: int| 0 <= k < fu.len() && fu[k] == v;
                    assert(f[k] == fu[k]);
                } else {
                    assert(f[fu.len() as int] == x);
                }
            }
        }
    }
}

proof fn lemma_first_at_swap(t: Seq<DnsServer>, q: int, j: int)
    requires
        0 <= q,
        q + 1 < t.len(),
        t[q].address != t[q + 1].address,
        0 <= j < t.len(),
    ensures
        first_at(swap_adjacent(t, q), j) == first_at(
            t,
            if j == q {
                q + 1
            } else if j == q + 1 {
                q
            } else {
                j
            },
        ),
{
    let u = swap_adjacent(t, q);
    let a = u[j].address;
    if j < q {
        assert(u.take(j) =~= t.take(j));
    } else if j == q {
        assert(u.take(q) =~= t.take(q));
        assert(t.take(q + 1) =~= t.take(q).push(t[q]));
        if has_address(t.take(q + 1), a) {
            let m = choose|m: int| 0 <= m < q + 1 && (#[trigger] t.take(q + 1)[m]).address == a;
            assert(m < q);
            assert(t.take(q)[m] == t.take(q + 1)[m]);
        }
        if has_address(t.take(q), a) {
            let m = choose|m: int| 0 <= m < q && (#[trigger] t.take(q)[m]).address == a;
            assert(t.take(q + 1)[m] == t.take(q)[m]);
        }
    } else if j == q + 1 {
        assert(u.take(q + 1) =~= t.take(q).push(t[q + 1]));
        if has_address(u.take(q + 1), a) {
            let m = choose|m: int| 0 <= m < q + 1 && (#[trigger] u.take(q + 1)[m]).address == a;
            assert(m < q);
            assert(t.take(q)[m] == u.take(q + 1)[m]);
        }
        if has_address(t.take(q), a) {
            let m = choose|m: int| 0 <= m < q && (#[trigger] t.take(q)[m]).address == a;
            assert(u.take(q + 1)[m] == t.take(q)[m]);
        }
    } else {
        let ut = u.take(j);
        let tt = t.take(j);
        if has_address(ut, a) {
            let m = choose|m: int| 0 <= m < j && (#[trigger] ut[m]).address == a;
            let m2 = if m == q {
                q + 1
            } else if m == q + 1 {
                q
            } else {
                m
            };
            assert(tt[m2] == ut[m]);
        }
        if has_address(tt, a) {
            let m = choose|m: int| 0 <= m < j && (#[trigger] tt[m]).address == a;
            let m2 = if m == q {
                q + 1
            } else if m == q + 1 {
                q
            } else {
                m
            };
            assert(ut[m2] == tt[m]);
        }
    }
}

/// Exchanging two neighbouring reports of equal preference and different
/// addresses changes no report's survival of consolidation.
pub proof fn lemma_equal_rank_swap_keeps_survivors(s: Seq<DnsServer>, i: int)
    requires
        0 <= i,
        i + 1 < s.len(),
        server_rank(s[i]) == server_rank(s[i + 1]),
        s[i].address != s[i + 1].address,
    ensures
        forall|v: DnsServer|
            #[trigger] consolidate(swap_adjacent(s, i)).contains(v) == consolidate(s).contains(v),
{
    let q = lemma_by_preference_swap(s, i);
    let t = by_preference(s);
    let u = swap_adjacent(t, q);
    lemma_first_per_address_contains(t);
    lemma_first_per_address_contains(u);
    assert forall|v: DnsServer| #[trigger] first_per_address(u).contains(v)
        == first_per_address(t).contains(v) by {
        if first_per_address(u).contains(v) {
            let j = choose|j: int| 0 <= j < u.len() && u[j] == v && #[trigger] first_at(u, j);
            lemma_first_at_swap(t, q, j);
            let j2 = if j == q {
                q + 1
            } else if j == q + 1 {
                q
            } else {
                j
            };
            assert(t[j2] == v && first_at(t, j2));
        }
        if first_per_address(t).contains(v) {
            let j = choose|j: int| 0 <= j < t.len() && t[j] == v && #[trigger] first_at(t, j);
            let j2 = if j == q {
                q + 1
            } else if j == q + 1 {
                q
            } else {
                j
            };
            lemma_first_at_swap(t, q, j2);
            assert(u[j2] == v && first_at(u, j2));
        }
    }
}

/// Consolidates a flat list of servers: stably sorted by source preference,
/// then only the first server of each address kept.
pub fn consolidate_servers(servers: &Vec<DnsServer>) -> (r: Vec<DnsServer>)
    ensures
        r@ == consolidate(servers@),
        distinct_addresses(r@),
        forall|i: int|
            0 <= i < servers@.len() ==> exists|k: int|
                0 <= k < r@.len() && (#[trigger] r@[k]).address == (#[trigger] servers@[i]).address
                    && server_rank(r@[k]) <= server_rank(servers@[i]),
        forall|k: int| 0 <= k < r@.len() ==> servers@.contains(#[trigger] r@[k]),
{
    let sorted = sort_by_preference(servers);
    let r = dedup_by_address(&sorted);
    proof {
        lemma_consolidate_keeps_most_preferred(servers@);
    }
    r
}

} // verus!
