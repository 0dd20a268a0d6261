//! Automatic zone networking: which zones have a usable network, and how the
//! set of known zone networks changes from one listing to the next.
use vstd::prelude::*;

use std::str::FromStr;

use crate::text::{concat_chars, decimal, decimal_chars, str_chars, string_from_chars};

verus! {

/// An IPv4 address (big-endian) with its prefix length.
#[derive(Debug, Clone, Copy, PartialEq, Eq, Structural)]
pub struct Ipv4Net {
    pub address: u32,
    pub prefix_len: u8,
}

/// An IPv6 address (big-endian) with its prefix length.
#[derive(Debug, Clone, Copy, PartialEq, Eq, Structural)]
pub struct Ipv6Net {
    pub address: u128,
    pub prefix_len: u8,
}

/// One end of a zone's virtual link.
#[derive(Debug, Clone, Copy, PartialEq, Eq, Structural)]
pub struct NetworkSide {
    pub ipv4: Ipv4Net,
    pub ipv6: Ipv6Net,
    /// The Ethernet address, its six octets big-endian in the low 48 bits.
    pub mac: u64,
}

/// The network of a running zone: its domain, its identity, and the zone
/// and gateway ends of its link.
#[derive(Debug, Clone, Copy, PartialEq, Eq, Structural)]
pub struct NetworkMetadata {
    pub domid: u32,
    pub uuid: u128,
    pub zone: NetworkSide,
    pub gateway: NetworkSide,
}

impl NetworkMetadata {
    pub open spec fn spec_interface(&self) -> Seq<char> {
        "vif"@ + decimal(self.domid as nat) + ".20"@
    }

    /// The host interface of the zone's link, `vif<domid>.20`.
    pub fn interface(&self) -> (s: String)
        ensures
            s@ == self.spec_interface(),
    {
        let a = str_chars("vif");
        let d = decimal_chars(self.domid as u64);
        let b = str_chars(".20");
        let v = concat_chars(a.as_slice(), d.as_slice());
        let w = concat_chars(v.as_slice(), b.as_slice());
        string_from_chars(w.as_slice())
    }
}

/// The network addresses the control service reports for a zone.
#[derive(Debug, Clone, PartialEq, Eq)]
pub struct ZoneNetworkStatus {
    pub zone_ipv4: String,
    pub zone_ipv6: String,
    pub zone_mac: String,
    pub gateway_ipv4: String,
    pub gateway_ipv6: String,
    pub gateway_mac: String,
}

/// The status the control service reports for a zone.
#[derive(Debug, Clone, PartialEq, Eq)]
pub struct ZoneStatus {
    pub domid: u32,
    pub network_status: Option<ZoneNetworkStatus>,
}

/// A zone as the control service lists it.
#[derive(Debug, Clone, PartialEq, Eq)]
pub struct Zone {
    pub id: String,
    pub status: Option<ZoneStatus>,
}

/// What `uuid::Uuid::from_str` yields for the text, as a 128-bit number.
pub uninterp spec fn uuid_parse(text: Seq<char>) -> Option<u128>;

/// What `smoltcp::wire::Ipv4Cidr::from_str` yields: address and prefix length.
pub uninterp spec fn smoltcp_ipv4_cidr(text: Seq<char>) -> Option<(u32, u8)>;

/// What `smoltcp::wire::Ipv6Cidr::from_str` yields: address and prefix length.
pub uninterp spec fn smoltcp_ipv6_cidr(text: Seq<char>) -> Option<(u128, u8)>;

/// What `smoltcp::wire::EthernetAddress::from_str` yields, as a 48-bit number.
pub uninterp spec fn smoltcp_ethernet_address(text: Seq<char>) -> Option<u64>;

/// `uuid::Uuid::from_str`: the UUID written in the text, in any of the
/// forms the crate accepts, as its 128-bit big-endian value.
#[verifier::external_body]
pub(crate) fn parse_uuid(text: &str) -> (r: Option<u128>)
    ensures
        r == uuid_parse(text@),
{
    uuid::Uuid::from_str(text).ok().map(|u| u.as_u128())
}

/// `smoltcp::wire::Ipv4Cidr::from_str`: an IPv4 CIDR `a.b.c.d/len`; the
/// parser admits only prefix lengths up to 32.
#[verifier::external_body]
fn parse_ipv4_cidr(text: &str) -> (r: Option<Ipv4Net>)
    ensures
        match (r, smoltcp_ipv4_cidr(text@)) {
            (Some(n), Some((a, p))) => n.address == a && n.prefix_len == p,
            (None, None) => true,
            _ => false,
        },
        r matches Some(n) ==> n.prefix_len <= 32,
{
    smoltcp::wire::Ipv4Cidr::from_str(text).ok().map(
        |c| Ipv4Net { address: u32::from_be_bytes(c.address().0), prefix_len: c.prefix_len() },
    )
}

/// `smoltcp::wire::Ipv6Cidr::from_str`: an IPv6 CIDR; the parser admits
/// only prefix lengths up to 128.
#[verifier::external_body]
fn parse_ipv6_cidr(text: &str) -> (r: Option<Ipv6Net>)
    ensures
        match (r, smoltcp_ipv6_cidr(text@)) {
            (Some(n), Some((a, p))) => n.address == a && n.prefix_len == p,
            (None, None) => true,
            _ => false,
        },
        r matches Some(n) ==> n.prefix_len <= 128,
{
    smoltcp::wire::Ipv6Cidr::from_str(text).ok().map(
        |c| Ipv6Net { address: u128::from_be_bytes(c.address().0), prefix_len: c.prefix_len() },
    )
}

/// `smoltcp::wire::EthernetAddress::from_str`: six hex octets joined by `:`
/// or `-`, as a number below 2^48.
#[verifier::external_body]
fn parse_ethernet_address(text: &str) -> (r: Option<u64>)
    ensures
        r == smoltcp_ethernet_address(text@),
        r matches Some(m) ==> m < 0x1_0000_0000_0000,
{
    smoltcp::wire::EthernetAddress::from_str(text).ok().map(
        |m| {
            let o = m.0;
            u64::from_be_bytes([0, 0, o[0], o[1], o[2], o[3], o[4], o[5]])
        },
    )
}

pub open spec fn ipv4_of(text: Seq<char>) -> Option<Ipv4Net> {
    match smoltcp_ipv4_cidr(text) {
        Some((a, p)) => Some(Ipv4Net { address: a, prefix_len: p }),
        None => None,
    }
}

pub open spec fn ipv6_of(text: Seq<char>) -> Option<Ipv6Net> {
    match smoltcp_ipv6_cidr(text) {
        Some((a, p)) => Some(Ipv6Net { address: a, prefix_len: p }),
        None => None,
    }
}

/// The network of the zone with identity `uuid`, when the zone runs (its
/// domain is not `u32::MAX`), reports a network status, and all six of its
/// addresses parse.
pub open spec fn zone_network(uuid: u128, z: Zone) -> Option<NetworkMetadata> {
    match z.status {
        None => None,
        Some(st) => if st.domid == u32::MAX {
            None
        } else {
            match st.network_status {
                None => None,
                Some(ns) => match (
                    ipv4_of(ns.zone_ipv4@),
                    ipv6_of(ns.zone_ipv6@),
                    smoltcp_ethernet_address(ns.zone_mac@),
                    ipv4_of(ns.gateway_ipv4@),
                    ipv6_of(ns.gateway_ipv6@),
                    smoltcp_ethernet_address(ns.gateway_mac@),
                ) {
                    (Some(zv4), Some(zv6), Some(zm), Some(gv4), Some(gv6), Some(gm)) => Some(
                        NetworkMetadata {
                            domid: st.domid,
                            uuid,
                            zone: NetworkSide { ipv4: zv4, ipv6: zv6, mac: zm },
                            gateway: NetworkSide { ipv4: gv4, ipv6: gv6, mac: gm },
                        },
                    ),
                    _ => None,
                },
            }
        },
    }
}

fn network_of_zone(uuid: u128, z: &Zone) -> (r: Option<NetworkMetadata>)
    ensures
        r == zone_network(uuid, *z),
{
    let Some(status) = &z.status else {
        return None;
    };
    if status.domid == u32::MAX {
        return None;
    }
    let Some(ns) = &status.network_status else {
        return None;
    };
    let Some(zone_ipv4) = parse_ipv4_cidr(ns.zone_ipv4.as_str()) else {
        return None;
    };
    let Some(zone_ipv6) = parse_ipv6_cidr(ns.zone_ipv6.as_str()) else {
        return None;
    };
    let Some(zone_mac) = parse_ethernet_address(ns.zone_mac.as_str()) else {
        return None;
    };
    let Some(gateway_ipv4) = parse_ipv4_cidr(ns.gateway_ipv4.as_str()) else {
        return None;
    };
    let Some(gateway_ipv6) = parse_ipv6_cidr(ns.gateway_ipv6.as_str()) else {
        return None;
    };
    let Some(gateway_mac) = parse_ethernet_address(ns.gateway_mac.as_str()) else {
        return None;
    };
    Some(
        NetworkMetadata {
            domid: status.domid,
            uuid,
            zone: NetworkSide { ipv4: zone_ipv4, ipv6: zone_ipv6, mac: zone_mac },
            gateway: NetworkSide { ipv4: gateway_ipv4, ipv6: gateway_ipv6, mac: gateway_mac },
        },
    )
}

/// Zone `k` is the last in the listing whose identity parses to `u`: a
/// later entry for the same identity replaces an earlier one.
pub open spec fn is_last(zs: Seq<Zone>, k: int, u: u128) -> bool {
    &&& 0 <= k < zs.len()
    &&& uuid_parse(zs[k].id@) == Some(u)
    &&& forall|j: int| k < j < zs.len() ==> uuid_parse(#[trigger] zs[j].id@) != Some(u)
}

/// The zone `u` has a usable network in the listing.
pub open spec fn networked(zs: Seq<Zone>, u: u128) -> bool {
    exists|k: int| is_last(zs, k, u) && (#[trigger] zone_network(u, zs[k])) is Some
}

/// The usable networks of a zone listing, by zone identity.
pub open spec fn current_networks(zs: Seq<Zone>) -> Map<u128, NetworkMetadata> {
    Map::new(
        |u: u128| networked(zs, u),
        |u: u128| zone_network(u, zs[choose|k: int| is_last(zs, k, u)])->0,
    )
}

/// No two networks of the sequence belong to the same zone.
pub open spec fn uuids_unique(s: Seq<NetworkMetadata>) -> bool {
    forall|i: int, j: int| 0 <= i < j < s.len() ==> s[i].uuid != s[j].uuid
}

/// Some network of the sequence belongs to zone `u`.
pub open spec fn has_uuid(s: Seq<NetworkMetadata>, u: u128) -> bool {
    exists|i: int| 0 <= i < s.len() && (#[trigger] s[i]).uuid == u
}

/// The networks of the sequence by zone identity.
pub open spec fn by_uuid(s: Seq<NetworkMetadata>) -> Map<u128, NetworkMetadata> {
    Map::new(
        |u: u128| has_uuid(s, u),
        |u: u128| s[choose|i: int| 0 <= i < s.len() && (#[trigger] s[i]).uuid == u],
    )
}

/// Network `m` of `s` is the network of the last entry, at or after `lo`,
/// for its zone.
pub open spec fn explains(zs: Seq<Zone>, s: Seq<NetworkMetadata>, lo: int, m: int) -> bool {
    exists|k: int|
        #![trigger is_last(zs, k, s[m].uuid)]
        lo <= k < zs.len() && is_last(zs, k, s[m].uuid) && zone_network(s[m].uuid, zs[k]) == Some(
            s[m],
        )
}

/// Every network of `s` is the network of the last entry, at or after
/// `lo`, for its zone.
pub open spec fn explained_from(zs: Seq<Zone>, s: Seq<NetworkMetadata>, lo: int) -> bool {
    forall|m: int| 0 <= m < s.len() ==> #[trigger] explains(zs, s, lo, m)
}

proof fn lemma_explained_step(zs: Seq<Zone>, r0: Seq<NetworkMetadata>, r: Seq<NetworkMetadata>, lo: int)
    requires
        0 <= lo < zs.len(),
        explained_from(zs, r0, lo + 1),
        r == r0 || (r.len() == r0.len() + 1 && r.drop_last() == r0 && is_last(zs, lo, r.last().uuid)
            && zone_network(r.last().uuid, zs[lo]) == Some(r.last())),
    ensures
        explained_from(zs, r, lo),
{
    assert forall|m: int| 0 <= m < r.len() implies #[trigger] explains(zs, r, lo, m) by {
        if m < r0.len() {
            assert(r[m] == r0[m]);
            assert(explains(zs, r0, lo + 1, m));
            let k = choose|k: int|
                #![trigger is_last(zs, k, r0[m].uuid)]
                lo + 1 <= k < zs.len() && is_last(zs, k, r0[m].uuid) && zone_network(
                    r0[m].uuid,
                    zs[k],
                ) == Some(r0[m]);
            assert(is_last(zs, k, r[m].uuid));
        } else {
            assert(r[m] == r.last());
            assert(is_last(zs, lo, r[m].uuid));
        }
    }
}

pub proof fn lemma_by_uuid_at(s: Seq<NetworkMetadata>, i: int)
    requires
        uuids_unique(s),
        0 <= i < s.len(),
    ensures
        by_uuid(s).contains_key(s[i].uuid),
        by_uuid(s)[s[i].uuid] == s[i],
{
    let u = s[i].uuid;
    assert(has_uuid(s, u));
    let k = choose|k: int| 0 <= k < s.len() && (#[trigger] s[k]).uuid == u;
    if k < i {
        assert(s[k].uuid != s[i].uuid);
    } else if k > i {
        assert(s[i].uuid != s[k].uuid);
    }
}

proof fn lemma_is_last_unique(zs: Seq<Zone>, k: int, j: int, u: u128)
    requires
        is_last(zs, k, u),
        is_last(zs, j, u),
    ensures
        k == j,
{
    if k < j {
        assert(uuid_parse(zs[j].id@) != Some(u));
    } else if j < k {
        assert(uuid_parse(zs[k].id@) != Some(u));
    }
}

/// The usable networks of the zones in the listing, one per zone identity;
/// when the listing names an identity more than once, its last entry counts.
pub fn collect_networks(zones: &Vec<Zone>) -> (r: Vec<NetworkMetadata>)
    ensures
        uuids_unique(r@),
        by_uuid(r@) == current_networks(zones@),
{
    let n = zones.len();
    let mut taken: Vec<u128> = Vec::new();
    let mut r: Vec<NetworkMetadata> = Vec::new();
    let mut i: usize = n;
    while i > 0
        invariant
            n == zones@.len(),
            i <= n,
            forall|u: u128|
                #![trigger taken@.contains(u)]
                taken@.contains(u) <==> exists|k: int|
                    i <= k < n && uuid_parse(#[trigger] zones@[k].id@) == Some(u),
            uuids_unique(r@),
            forall|m: int| 0 <= m < r@.len() ==> taken@.contains(#[trigger] r@[m].uuid),
            explained_from(zones@, r@, i as int),
            forall|k: int, u: u128|
                i <= k < n && is_last(zones@, k, u) && (#[trigger] zone_network(
                    u,
                    zones@[k],
                )) is Some ==> has_uuid(r@, u),
        decreases i,
    {
        i = i - 1;
        let ghost r0 = r@;
        let zone = &zones[i];
        let parsed = parse_uuid(zone.id.as_str());
        if let Some(u) = parsed {
            let mut seen = false;
            let mut j: usize = 0;
            while j < taken.len()
                invariant
                    j <= taken@.len(),
                    seen == taken@.subrange(0, j as int).contains(u),
                decreases taken@.len() - j,
            {
                proof {
                    let a = taken@.subrange(0, j as int);
                    let b = taken@.subrange(0, j + 1);
                    assert(b == a.push(taken@[j as int]));
                    if taken@[j as int] == u {
                        assert(b[j as int] == u);
                    }
                    if a.contains(u) {
                        let k = choose|k: int| 0 <= k < a.len() && a[k] == u;
                        assert(b[k] == u);
                    }
                    if b.contains(u) && !a.contains(u) {
                        let k = choose|k: int| 0 <= k < b.len() && b[k] == u;
                        if k < a.len() {
                            assert(a[k] == u);
                        }
                    }
                }
                if taken[j] == u {
                    seen = true;
                }
                j = j + 1;
            }
            assert(taken@.subrange(0, taken@.len() as int) == taken@);
            if !seen {
                // No later entry names this zone: this entry is its last.
                assert(is_last(zones@, i as int, u)) by {
                    assert forall|j: int| i < j < n implies uuid_parse(
                        #[trigger] zones@[j].id@,
                    ) != Some(u) by {
                        if uuid_parse(zones@[j].id@) == Some(u) {
                            assert(taken@.contains(u));
                        }
                    }
                }
                let ghost old_taken = taken@;
                let ghost old_r = r@;
                taken.push(u);
                assert(taken@.contains(u)) by {
                    assert(taken@[taken@.len() - 1] == u);
                }
                assert forall|v: u128| #![trigger taken@.contains(v)] old_taken.contains(v) implies taken@.contains(v) by {
                    let k = choose|k: int| 0 <= k < old_taken.len() && old_taken[k] == v;
                    assert(taken@[k] == v);
                }
                assert forall|v: u128| #![trigger taken@.contains(v)] taken@.contains(v) implies (v == u || old_taken.contains(v)) by {
                    let k = choose|k: int| 0 <= k < taken@.len() && taken@[k] == v;
                    if k < old_taken.len() {
                        assert(old_taken[k] == v);
                    }
                }
                let net = network_of_zone(u, zone);
                if let Some(m) = net {
                    r.push(m);
                    assert(r@ == r0.push(m));
                    assert(r@.drop_last() == r0);
                    assert(r@[r@.len() - 1] == m);
                    assert(has_uuid(r@, u));
                    assert forall|a: int| 0 <= a < old_r.len() implies #[trigger] r@[a] == old_r[a] by {}
                    assert forall|v: u128| has_uuid(old_r, v) implies has_uuid(r@, v) by {
                        let a = choose|a: int| 0 <= a < old_r.len() && (#[trigger] old_r[a]).uuid == v;
                        assert(r@[a] == old_r[a]);
                    }
                }
            } else {
                assert(!is_last(zones@, i as int, u)) by {
                    let k = choose|k: int| i + 1 <= k < n && uuid_parse(#[trigger] zones@[k].id@) == Some(u);
                    assert(i < k);
                }
            }
        }
        proof {
            lemma_explained_step(zones@, r0, r@, i as int);
        }
    }
    proof {
        let cur = current_networks(zones@);
        let got = by_uuid(r@);
        assert forall|u: u128| got.contains_key(u) <==> cur.contains_key(u) by {
            if got.contains_key(u) {
                let m = choose|m: int| 0 <= m < r@.len() && (#[trigger] r@[m]).uuid == u;
                assert(explains(zones@, r@, 0, m));
                let k = choose|k: int|
                    #![trigger is_last(zones@, k, r@[m].uuid)]
                    0 <= k < n && is_last(zones@, k, r@[m].uuid) && zone_network(r@[m].uuid, zones@[k]) == Some(r@[m]);
                assert(zone_network(u, zones@[k]) is Some);
            }
            if cur.contains_key(u) {
                let k = choose|k: int| is_last(zones@, k, u) && (#[trigger] zone_network(u, zones@[k])) is Some;
                assert(has_uuid(r@, u));
            }
        }
        assert forall|u: u128| #[trigger] got.contains_key(u) implies got[u] == cur[u] by {
            let m = choose|m: int| 0 <= m < r@.len() && (#[trigger] r@[m]).uuid == u;
            lemma_by_uuid_at(r@, m);
            assert(explains(zones@, r@, 0, m));
            let k = choose|k: int|
                #![trigger is_last(zones@, k, r@[m].uuid)]
                0 <= k < n && is_last(zones@, k, r@[m].uuid) && zone_network(r@[m].uuid, zones@[k]) == Some(r@[m]);
            let k2 = choose|k: int| is_last(zones@, k, u);
            lemma_is_last_unique(zones@, k, k2, u);
        }
        assert(got =~= cur);
    }
    r
}

/// `v` is one of the first `hi` elements of `s`.
pub open spec fn occurs_before(s: Seq<NetworkMetadata>, v: NetworkMetadata, hi: int) -> bool {
    exists|j: int| 0 <= j < hi && s[j] == v
}

/// Every element of `x` is one of the first `hi` elements of `s`.
pub open spec fn drawn_from(x: Seq<NetworkMetadata>, s: Seq<NetworkMetadata>, hi: int) -> bool {
    forall|a: int| 0 <= a < x.len() ==> #[trigger] occurs_before(s, x[a], hi)
}

proof fn lemma_drawn_push(x: Seq<NetworkMetadata>, s: Seq<NetworkMetadata>, i: int)
    requires
        0 <= i < s.len(),
        drawn_from(x, s, i),
        uuids_unique(s),
        uuids_unique(x),
    ensures
        drawn_from(x.push(s[i]), s, i + 1),
        uuids_unique(x.push(s[i])),
{
    let y = x.push(s[i]);
    assert forall|a: int| 0 <= a < y.len() implies #[trigger] occurs_before(s, y[a], i + 1) by {
        if a < x.len() {
            assert(occurs_before(s, x[a], i));
            assert(y[a] == x[a]);
        } else {
            assert(y[a] == s[i]);
        }
    }
    assert forall|a: int, b: int| 0 <= a < b < y.len() implies y[a].uuid != y[b].uuid by {
        if b == x.len() {
            assert(occurs_before(s, x[a], i));
            let j = choose|j: int| 0 <= j < i && s[j] == x[a];
            assert(s[j].uuid != s[i].uuid);
        } else {
            assert(y[a] == x[a] && y[b] == x[b]);
        }
    }
}

proof fn lemma_drawn_widen(x: Seq<NetworkMetadata>, s: Seq<NetworkMetadata>, i: int)
    requires
        drawn_from(x, s, i),
    ensures
        drawn_from(x, s, i + 1),
{
    assert forall|a: int| 0 <= a < x.len() implies #[trigger] occurs_before(s, x[a], i + 1) by {
        assert(occurs_before(s, x[a], i));
    }
}

/// Zone networks known before and after a listing: a zone that is still
/// listed keeps the network recorded when it first appeared, a newly listed
/// zone is recorded with its current network, and a zone no longer listed is
/// forgotten.
pub open spec fn after_listing(known: Map<u128, NetworkMetadata>, cur: Map<u128, NetworkMetadata>) -> Map<u128, NetworkMetadata> {
    Map::new(
        |u: u128| cur.contains_key(u),
        |u: u128|
            if known.contains_key(u) {
                known[u]
            } else {
                cur[u]
            },
    )
}

/// The listed networks of zones that were not known.
pub open spec fn appeared(known: Map<u128, NetworkMetadata>, cur: Map<u128, NetworkMetadata>) -> Map<u128, NetworkMetadata> {
    Map::new(|u: u128| cur.contains_key(u) && !known.contains_key(u), |u: u128| cur[u])
}

/// The known networks of zones that are no longer listed.
pub open spec fn disappeared(known: Map<u128, NetworkMetadata>, cur: Map<u128, NetworkMetadata>) -> Map<u128, NetworkMetadata> {
    Map::new(|u: u128| known.contains_key(u) && !cur.contains_key(u), |u: u128| known[u])
}

/// The networks that appeared and disappeared between two listings.
#[derive(Debug, Clone)]
pub struct AutoNetworkChangeset {
    pub added: Vec<NetworkMetadata>,
    pub removed: Vec<NetworkMetadata>,
}

/// What the watcher waits for between two listings.
#[derive(Debug, Clone, Copy, PartialEq, Eq, Structural)]
pub enum WaitEvent {
    /// The control service reported a change of some zone.
    ZoneChanged,
    /// Receiving the next event failed.
    ReceiveFailed,
    /// Ten seconds passed without an event.
    TimedOut,
}

/// Whether the wait for the next listing is over: a zone change or the
/// timeout ends it, a failed receive is reported and the wait goes on.
pub fn wait_finished(event: WaitEvent) -> (done: bool)
    ensures
        done <==> event != WaitEvent::ReceiveFailed,
{
    match event {
        WaitEvent::ZoneChanged => true,
        WaitEvent::ReceiveFailed => false,
        WaitEvent::TimedOut => true,
    }
}

/// The zone networks the watcher has reported, at most one per zone.
pub struct AutoNetworkWatcher {
    known: Vec<NetworkMetadata>,
}

impl View for AutoNetworkWatcher {
    type V = Map<u128, NetworkMetadata>;

    closed spec fn view(&self) -> Map<u128, NetworkMetadata> {
        by_uuid(self.known@)
    }
}

fn find_uuid(s: &Vec<NetworkMetadata>, u: u128) -> (r: Option<usize>)
    ensures
        r matches Some(i) ==> i < s@.len() && s@[i as int].uuid == u,
        r is None ==> !has_uuid(s@, u),
{
    let mut i: usize = 0;
    while i < s.len()
        invariant
            i <= s@.len(),
            forall|j: int| 0 <= j < i ==> s@[j].uuid != u,
        decreases s@.len() - i,
    {
        if s[i].uuid == u {
            return Some(i);
        }
        i = i + 1;
    }
    None
}

impl AutoNetworkWatcher {
    #[verifier::type_invariant]
    closed spec fn unique_zones(self) -> bool {
        uuids_unique(self.known@)
    }

    /// A watcher that knows no zone network yet.
    pub fn new() -> (w: AutoNetworkWatcher)
        ensures
            w@ == Map::<u128, NetworkMetadata>::empty(),
    {
        let w = AutoNetworkWatcher { known: Vec::new() };
        assert(w@ =~= Map::<u128, NetworkMetadata>::empty());
        w
    }

    /// The usable networks of the listed zones, one per zone; when a zone
    /// is listed more than once its last entry counts. The order is not
    /// significant.
    pub fn read(&self, zones: &Vec<Zone>) -> (r: Vec<NetworkMetadata>)
        ensures
            uuids_unique(r@),
            by_uuid(r@) == current_networks(zones@),
    {
        collect_networks(zones)
    }

    /// Brings the known networks up to date with a zone listing and reports
    /// what appeared and disappeared. When the listing could not be had
    /// (`None`), nothing changes and nothing is reported.
    pub fn read_changes(&mut self, zones: Option<&Vec<Zone>>) -> (cs: AutoNetworkChangeset)
        ensures
            match zones {
                None => final(self)@ == old(self)@ && cs.added@.len() == 0 && cs.removed@.len() == 0,
                Some(zs) => {
                    &&& final(self)@ == after_listing(old(self)@, current_networks(zs@))
                    &&& uuids_unique(cs.added@)
                    &&& by_uuid(cs.added@) == appeared(old(self)@, current_networks(zs@))
                    &&& uuids_unique(cs.removed@)
                    &&& by_uuid(cs.removed@) == disappeared(old(self)@, current_networks(zs@))
                },
            },
    {
        let Some(zones) = zones else {
            return AutoNetworkChangeset { added: Vec::new(), removed: Vec::new() };
        };
        proof {
            use_type_invariant(&*self);
        }
        let networks = collect_networks(zones);
        let ghost cur = current_networks(zones@);
        let ghost old_known = self.known@;
        let ghost net = networks@;
        let mut added: Vec<NetworkMetadata> = Vec::new();
        let mut i: usize = 0;
        while i < networks.len()
            invariant
                i <= net.len(),
                net == networks@,
                uuids_unique(net),
                uuids_unique(old_known),
                old_known == self.known@,
                uuids_unique(added@),
                drawn_from(added@, net, i as int),
                forall|a: int| 0 <= a < added@.len() ==> !has_uuid(old_known, #[trigger] added@[a].uuid),
                forall|j: int|
                    0 <= j < i && !has_uuid(old_known, #[trigger] net[j].uuid) ==> has_uuid(
                        added@,
                        net[j].uuid,
                    ),
            decreases net.len() - i,
        {
            let n = networks[i];
            let ghost before = added@;
            if find_uuid(&self.known, n.uuid).is_none() {
                proof {
                    lemma_drawn_push(added@, net, i as int);
                }
                added.push(n);
                assert(added@ == before.push(n));
                assert forall|a: int| 0 <= a < added@.len() implies !has_uuid(old_known, #[trigger] added@[a].uuid) by {
                    if a < before.len() {
                        assert(added@[a] == before[a]);
                    }
                }
                assert forall|j: int|
                    0 <= j < i + 1 && !has_uuid(old_known, #[trigger] net[j].uuid) implies has_uuid(
                        added@,
                        net[j].uuid,
                    ) by {
                    if j < i {
                        let a = choose|a: int| 0 <= a < before.len() && (#[trigger] before[a]).uuid == net[j].uuid;
                        assert(added@[a] == before[a]);
                    } else {
                        assert(added@[before.len() as int] == n);
                    }
                }
            } else {
                proof {
                    lemma_drawn_widen(added@, net, i as int);
                }
            }
            i = i + 1;
        }
        let mut kept: Vec<NetworkMetadata> = Vec::new();
        let mut removed: Vec<NetworkMetadata> = Vec::new();
        let mut k: usize = 0;
        while k < self.known.len()
            invariant
                k <= old_known.len(),
                old_known == self.known@,
                uuids_unique(old_known),
                uuids_unique(net),
                net == networks@,
                uuids_unique(kept@),
                uuids_unique(removed@),
                drawn_from(kept@, old_known, k as int),
                drawn_from(removed@, old_known, k as int),
                forall|a: int| 0 <= a < kept@.len() ==> has_uuid(net, #[trigger] kept@[a].uuid),
                forall|a: int| 0 <= a < removed@.len() ==> !has_uuid(net, #[trigger] removed@[a].uuid),
                forall|j: int|
                    0 <= j < k ==> (if has_uuid(net, #[trigger] old_known[j].uuid) {
                        has_uuid(kept@, old_known[j].uuid)
                    } else {
                        has_uuid(removed@, old_known[j].uuid)
                    }),
            decreases old_known.len() - k,
        {
            let x = self.known[k];
            let ghost kb = kept@;
            let ghost rb = removed@;
            let found = find_uuid(&networks, x.uuid);
            if let Some(p) = found {
                assert(has_uuid(net, x.uuid)) by {
                    assert(net[p as int].uuid == x.uuid);
                }
                proof {
                    lemma_drawn_push(kept@, old_known, k as int);
                    lemma_drawn_widen(removed@, old_known, k as int);
                }
                kept.push(x);
                assert(kept@ == kb.push(x));
                assert forall|a: int| 0 <= a < kept@.len() implies has_uuid(net, #[trigger] kept@[a].uuid) by {
                    if a < kb.len() {
                        assert(kept@[a] == kb[a]);
                    } else {
                        assert(kept@[a] == x);
                    }
                }
                assert(has_uuid(kept@, x.uuid)) by {
                    assert(kept@[kb.len() as int] == x);
                }
                assert forall|v: u128| has_uuid(kb, v) implies has_uuid(kept@, v) by {
                    let a = choose|a: int| 0 <= a < kb.len() && (#[trigger] kb[a]).uuid == v;
                    assert(kept@[a] == kb[a]);
                }
            } else {
                proof {
                    lemma_drawn_push(removed@, old_known, k as int);
                    lemma_drawn_widen(kept@, old_known, k as int);
                }
                removed.push(x);
                assert(removed@ == rb.push(x));
                assert forall|a: int| 0 <= a < removed@.len() implies !has_uuid(net, #[trigger] removed@[a].uuid) by {
                    if a < rb.len() {
                        assert(removed@[a] == rb[a]);
                    } else {
                        assert(removed@[a] == x);
                    }
                }
                assert(has_uuid(removed@, x.uuid)) by {
                    assert(removed@[rb.len() as int] == x);
                }
                assert forall|v: u128| has_uuid(rb, v) implies has_uuid(removed@, v) by {
                    let a = choose|a: int| 0 <= a < rb.len() && (#[trigger] rb[a]).uuid == v;
                    assert(removed@[a] == rb[a]);
                }
            }
            k = k + 1;
        }
        let ghost kept_s = kept@;
        let mut next = kept;
        let mut t: usize = 0;
        while t < added.len()
            invariant
                t <= added@.len(),
                next@ == kept_s + added@.subrange(0, t as int),
            decreases added@.len() - t,
        {
            next.push(added[t]);
            t = t + 1;
            assert(next@ == kept_s + added@.subrange(0, t as int));
        }
        assert(added@.subrange(0, added@.len() as int) == added@);
        proof {
            self.lemma_changes(old_known, net, kept_s, added@, removed@, next@, zones@);
        }
        self.known = next;
        AutoNetworkChangeset { added, removed }
    }

    proof fn lemma_changes(
        &self,
        old_known: Seq<NetworkMetadata>,
        net: Seq<NetworkMetadata>,
        kept: Seq<NetworkMetadata>,
        added: Seq<NetworkMetadata>,
        removed: Seq<NetworkMetadata>,
        next: Seq<NetworkMetadata>,
        zs: Seq<Zone>,
    )
        requires
            uuids_unique(old_known),
            uuids_unique(net),
            by_uuid(net) == current_networks(zs),
            uuids_unique(kept),
            uuids_unique(added),
            uuids_unique(removed),
            drawn_from(kept, old_known, old_known.len() as int),
            drawn_from(removed, old_known, old_known.len() as int),
            drawn_from(added, net, net.len() as int),
            forall|a: int| 0 <= a < kept.len() ==> has_uuid(net, #[trigger] kept[a].uuid),
            forall|a: int| 0 <= a < removed.len() ==> !has_uuid(net, #[trigger] removed[a].uuid),
            forall|a: int| 0 <= a < added.len() ==> !has_uuid(old_known, #[trigger] added[a].uuid),
            forall|j: int|
                0 <= j < old_known.len() ==> (if has_uuid(net, #[trigger] old_known[j].uuid) {
                    has_uuid(kept, old_known[j].uuid)
                } else {
                    has_uuid(removed, old_known[j].uuid)
                }),
            forall|j: int|
                0 <= j < net.len() && !has_uuid(old_known, #[trigger] net[j].uuid) ==> has_uuid(
                    added,
                    net[j].uuid,
                ),
            next == kept + added,
        ensures
            uuids_unique(next),
            by_uuid(next) == after_listing(by_uuid(old_known), current_networks(zs)),
            by_uuid(added) == appeared(by_uuid(old_known), current_networks(zs)),
            by_uuid(removed) == disappeared(by_uuid(old_known), current_networks(zs)),
    {
        let cur = current_networks(zs);
        let om = by_uuid(old_known);
        // Elements drawn from a sequence carry that sequence's network for their zone.
        assert forall|a: int| 0 <= a < kept.len() implies om.contains_key(kept[a].uuid) && om[kept[a].uuid] == #[trigger] kept[a] by {
            assert(occurs_before(old_known, kept[a], old_known.len() as int));
            let j = choose|j: int| 0 <= j < old_known.len() && old_known[j] == kept[a];
            lemma_by_uuid_at(old_known, j);
        }
        assert forall|a: int| 0 <= a < removed.len() implies om.contains_key(removed[a].uuid) && om[removed[a].uuid] == #[trigger] removed[a] by {
            assert(occurs_before(old_known, removed[a], old_known.len() as int));
            let j = choose|j: int| 0 <= j < old_known.len() && old_known[j] == removed[a];
            lemma_by_uuid_at(old_known, j);
        }
        assert forall|a: int| 0 <= a < added.len() implies cur.contains_key(added[a].uuid) && cur[added[a].uuid] == #[trigger] added[a] by {
            assert(occurs_before(net, added[a], net.len() as int));
            let j = choose|j: int| 0 <= j < net.len() && net[j] == added[a];
            lemma_by_uuid_at(net, j);
        }
        // The kept and added zones are disjoint, so the combined sequence is unique.
        assert forall|a: int, b: int| 0 <= a < b < next.len() implies next[a].uuid != next[b].uuid by {
            if b < kept.len() {
                assert(next[a] == kept[a] && next[b] == kept[b]);
            } else if a >= kept.len() {
                assert(next[a] == added[a - kept.len()] && next[b] == added[b - kept.len()]);
            } else {
                assert(next[a] == kept[a] && next[b] == added[b - kept.len()]);
                assert(om.contains_key(kept[a].uuid));
                assert(!has_uuid(old_known, added[b - kept.len()].uuid));
            }
        }
        // Map equalities, zone by zone.
        let nm = by_uuid(next);
        let target = after_listing(om, cur);
        assert forall|u: u128| nm.contains_key(u) <==> target.contains_key(u) by {
            if nm.contains_key(u) {
                let a = choose|a: int| 0 <= a < next.len() && (#[trigger] next[a]).uuid == u;
                if a < kept.len() {
                    assert(next[a] == kept[a]);
                    let j = choose|j: int| 0 <= j < net.len() && (#[trigger] net[j]).uuid == kept[a].uuid;
                    lemma_by_uuid_at(net, j);
                } else {
                    assert(next[a] == added[a - kept.len()]);
                }
            }
            if target.contains_key(u) {
                assert(has_uuid(net, u));
                let j = choose|j: int| 0 <= j < net.len() && (#[trigger] net[j]).uuid == u;
                if has_uuid(old_known, u) {
                    let i = choose|i: int| 0 <= i < old_known.len() && (#[trigger] old_known[i]).uuid == u;
                    let a = choose|a: int| 0 <= a < kept.len() && (#[trigger] kept[a]).uuid == u;
                    assert(next[a] == kept[a]);
                } else {
                    let a = choose|a: int| 0 <= a < added.len() && (#[trigger] added[a]).uuid == u;
                    assert(next[kept.len() + a] == added[a]);
                }
            }
        }
        assert forall|u: u128| #[trigger] nm.contains_key(u) implies nm[u] == target[u] by {
            let a = choose|a: int| 0 <= a < next.len() && (#[trigger] next[a]).uuid == u;
            lemma_by_uuid_at(next, a);
            if a < kept.len() {
                assert(next[a] == kept[a]);
            } else {
                assert(next[a] == added[a - kept.len()]);
                let b = a - kept.len();
                assert(!has_uuid(old_known, added[b].uuid));
            }
        }
        assert(nm =~= target);
        let am = by_uuid(added);
        let ap = appeared(om, cur);
        assert forall|u: u128| am.contains_key(u) <==> ap.contains_key(u) by {
            if am.contains_key(u) {
                let a = choose|a: int| 0 <= a < added.len() && (#[trigger] added[a]).uuid == u;
                assert(!has_uuid(old_known, added[a].uuid));
            }
            if ap.contains_key(u) {
                let j = choose|j: int| 0 <= j < net.len() && (#[trigger] net[j]).uuid == u;
            }
        }
        assert forall|u: u128| #[trigger] am.contains_key(u) implies am[u] == ap[u] by {
            let a = choose|a: int| 0 <= a < added.len() && (#[trigger] added[a]).uuid == u;
            lemma_by_uuid_at(added, a);
        }
        assert(am =~= ap);
        let rm = by_uuid(removed);
        let dp = disappeared(om, cur);
        assert forall|u: u128| rm.contains_key(u) <==> dp.contains_key(u) by {
            if rm.contains_key(u) {
                let a = choose|a: int| 0 <= a < removed.len() && (#[trigger] removed[a]).uuid == u;
                assert(!has_uuid(net, removed[a].uuid));
            }
            if dp.contains_key(u) {
                let i = choose|i: int| 0 <= i < old_known.len() && (#[trigger] old_known[i]).uuid == u;
                if has_uuid(net, u) {
                    let j = choose|j: int| 0 <= j < net.len() && (#[trigger] net[j]).uuid == u;
                    lemma_by_uuid_at(net, j);
                }
            }
        }
        assert forall|u: u128| #[trigger] rm.contains_key(u) implies rm[u] == dp[u] by {
            let a = choose|a: int| 0 <= a < removed.len() && (#[trigger] removed[a]).uuid == u;
            lemma_by_uuid_at(removed, a);
        }
        assert(rm =~= dp);
    }

    /// Forgets the network of zone `uuid`, so that the next listing reports
    /// it again; whether it was known.
    pub fn mark_unknown(&mut self, uuid: u128) -> (was_known: bool)
        ensures
            was_known == old(self)@.contains_key(uuid),
            final(self)@ == old(self)@.remove(uuid),
    {
        proof {
            use_type_invariant(&*self);
        }
        let ghost old_known = self.known@;
        match find_uuid(&self.known, uuid) {
            None => {
                assert(self@ =~= old(self)@.remove(uuid));
                false
            },
            Some(i) => {
                let mut rest: Vec<NetworkMetadata> = Vec::new();
                let mut j: usize = 0;
                while j < self.known.len()
                    invariant
                        j <= old_known.len(),
                        old_known == self.known@,
                        uuids_unique(old_known),
                        uuids_unique(rest@),
                        drawn_from(rest@, old_known, j as int),
                        forall|a: int| 0 <= a < rest@.len() ==> (#[trigger] rest@[a]).uuid != uuid,
                        forall|k: int|
                            0 <= k < j && (#[trigger] old_known[k]).uuid != uuid ==> has_uuid(
                                rest@,
                                old_known[k].uuid,
                            ),
                    decreases old_known.len() - j,
                {
                    let x = self.known[j];
                    let ghost rb = rest@;
                    if x.uuid != uuid {
                        proof {
                            lemma_drawn_push(rest@, old_known, j as int);
                        }
                        rest.push(x);
                        assert(rest@ == rb.push(x));
                        assert forall|a: int| 0 <= a < rest@.len() implies (#[trigger] rest@[a]).uuid != uuid by {
                            if a < rb.len() {
                                assert(rest@[a] == rb[a]);
                            }
                        }
                        assert(has_uuid(rest@, x.uuid)) by {
                            assert(rest@[rb.len() as int] == x);
                        }
                        assert forall|v: u128| has_uuid(rb, v) implies has_uuid(rest@, v) by {
                            let a = choose|a: int| 0 <= a < rb.len() && (#[trigger] rb[a]).uuid == v;
                            assert(rest@[a] == rb[a]);
                        }
                    } else {
                        proof {
                            lemma_drawn_widen(rest@, old_known, j as int);
                        }
                    }
                    j = j + 1;
                }
                proof {
                    lemma_remove_uuid(old_known, rest@, uuid);
                    assert(has_uuid(old_known, uuid)) by {
                        assert(old_known[i as int].uuid == uuid);
                    }
                }
                self.known = rest;
                true
            },
        }
    }
}

proof fn lemma_remove_uuid(s: Seq<NetworkMetadata>, t: Seq<NetworkMetadata>, u: u128)
    requires
        uuids_unique(s),
        uuids_unique(t),
        drawn_from(t, s, s.len() as int),
        forall|a: int| 0 <= a < t.len() ==> (#[trigger] t[a]).uuid != u,
        forall|k: int| 0 <= k < s.len() && (#[trigger] s[k]).uuid != u ==> has_uuid(t, s[k].uuid),
    ensures
        by_uuid(t) == by_uuid(s).remove(u),
{
    let tm = by_uuid(t);
    let sm = by_uuid(s).remove(u);
    assert forall|v: u128| tm.contains_key(v) <==> sm.contains_key(v) by {
        if tm.contains_key(v) {
            let a = choose|a: int| 0 <= a < t.len() && (#[trigger] t[a]).uuid == v;
            assert(occurs_before(s, t[a], s.len() as int));
            let j = choose|j: int| 0 <= j < s.len() && s[j] == t[a];
            lemma_by_uuid_at(s, j);
        }
        if sm.contains_key(v) {
            let j = choose|j: int| 0 <= j < s.len() && (#[trigger] s[j]).uuid == v;
        }
    }
    assert forall|v: u128| #[trigger] tm.contains_key(v) implies tm[v] == sm[v] by {
        let a = choose|a: int| 0 <= a < t.len() && (#[trigger] t[a]).uuid == v;
        lemma_by_uuid_at(t, a);
        assert(occurs_before(s, t[a], s.len() as int));
        let j = choose|j: int| 0 <= j < s.len() && s[j] == t[a];
        lemma_by_uuid_at(s, j);
    }
    assert(tm =~= sm);
}

/// After a listing, the known zones are exactly the zones with a usable
/// network in that listing.
pub proof fn law_known_zones_follow_listing(known: Map<u128, NetworkMetadata>, zs: Seq<Zone>)
    ensures
        after_listing(known, current_networks(zs)).dom() == current_networks(zs).dom(),
{
    assert(after_listing(known, current_networks(zs)).dom() =~= current_networks(zs).dom());
}

/// Reading the same listing a second time changes nothing and reports
/// nothing: no network appears and none disappears.
pub proof fn law_repeated_listing_is_quiet(known: Map<u128, NetworkMetadata>, zs: Seq<Zone>)
    ensures
        after_listing(after_listing(known, current_networks(zs)), current_networks(zs))
            == after_listing(known, current_networks(zs)),
        appeared(after_listing(known, current_networks(zs)), current_networks(zs)) == Map::<
            u128,
            NetworkMetadata,
        >::empty(),
        disappeared(after_listing(known, current_networks(zs)), current_networks(zs)) == Map::<
            u128,
            NetworkMetadata,
        >::empty(),
{
    let cur = current_networks(zs);
    let k1 = after_listing(known, cur);
    assert(after_listing(k1, cur) =~= k1);
    assert(appeared(k1, cur) =~= Map::<u128, NetworkMetadata>::empty());
    assert(disappeared(k1, cur) =~= Map::<u128, NetworkMetadata>::empty());
}

/// A zone that is marked unknown and still listed is reported again, with
/// its current network, by the next listing, and it is the only one.
pub proof fn law_marked_zone_reappears(known: Map<u128, NetworkMetadata>, zs: Seq<Zone>, uuid: u128)
    requires
        current_networks(zs).contains_key(uuid),
    ensures
        appeared(after_listing(known, current_networks(zs)).remove(uuid), current_networks(zs))
            == Map::<u128, NetworkMetadata>::empty().insert(uuid, current_networks(zs)[uuid]),
{
    let cur = current_networks(zs);
    let k1 = after_listing(known, cur).remove(uuid);
    assert(appeared(k1, cur) =~= Map::<u128, NetworkMetadata>::empty().insert(uuid, cur[uuid]));
}

/// Every zone that was known or is listed is accounted for: it stays known,
/// or it appears, or it disappears, and never two of these at once.
pub proof fn law_changes_partition_zones(known: Map<u128, NetworkMetadata>, zs: Seq<Zone>, u: u128)
    requires
        known.contains_key(u) || current_networks(zs).contains_key(u),
    ensures
        ({
            let cur = current_networks(zs);
            let stays = known.contains_key(u) && cur.contains_key(u);
            let comes = appeared(known, cur).contains_key(u);
            let goes = disappeared(known, cur).contains_key(u);
            (stays && !comes && !goes) || (!stays && comes && !goes) || (!stays && !comes && goes)
        }),
{
}

/// A zone's network is read from its own status, each field from its own
/// entry: the zone that the last listing entry with identity `u` describes
/// has a network exactly when it runs (its domain is not `u32::MAX`),
/// reports a network status, and the six addresses of that status parse;
/// the network then has that domain and identity, the zone side holds the
/// parses of the zone's addresses and the gateway side those of the
/// gateway's.
pub proof fn law_network_fields_come_from_their_status(zs: Seq<Zone>, u: u128, k: int)
    requires
        is_last(zs, k, u),
    ensures
        current_networks(zs).contains_key(u) <==> {
            &&& zs[k].status matches Some(st)
            &&& st.domid != u32::MAX
            &&& st.network_status matches Some(ns)
            &&& smoltcp_ipv4_cidr(ns.zone_ipv4@) is Some
            &&& smoltcp_ipv6_cidr(ns.zone_ipv6@) is Some
            &&& smoltcp_ethernet_address(ns.zone_mac@) is Some
            &&& smoltcp_ipv4_cidr(ns.gateway_ipv4@) is Some
            &&& smoltcp_ipv6_cidr(ns.gateway_ipv6@) is Some
            &&& smoltcp_ethernet_address(ns.gateway_mac@) is Some
        },
        current_networks(zs).contains_key(u) ==> {
            let m = current_networks(zs)[u];
            let st = zs[k].status->0;
            let ns = st.network_status->0;
            &&& m.uuid == u
            &&& m.domid == st.domid
            &&& smoltcp_ipv4_cidr(ns.zone_ipv4@) == Some((m.zone.ipv4.address, m.zone.ipv4.prefix_len))
            &&& smoltcp_ipv6_cidr(ns.zone_ipv6@) == Some((m.zone.ipv6.address, m.zone.ipv6.prefix_len))
            &&& smoltcp_ethernet_address(ns.zone_mac@) == Some(m.zone.mac)
            &&& smoltcp_ipv4_cidr(ns.gateway_ipv4@) == Some(
                (m.gateway.ipv4.address, m.gateway.ipv4.prefix_len),
            )
            &&& smoltcp_ipv6_cidr(ns.gateway_ipv6@) == Some(
                (m.gateway.ipv6.address, m.gateway.ipv6.prefix_len),
            )
            &&& smoltcp_ethernet_address(ns.gateway_mac@) == Some(m.gateway.mac)
        },
{
    let k0 = choose|j: int| is_last(zs, j, u);
    lemma_is_last_unique(zs, k0, k, u);
    if networked(zs, u) {
        let j = choose|j: int| is_last(zs, j, u) && (#[trigger] zone_network(u, zs[j])) is Some;
        lemma_is_last_unique(zs, j, k, u);
    } else {
        assert(!(zone_network(u, zs[k]) is Some));
    }
}

} // verus!
