//! Choosing the physical adapter that faces the internet.
use crate::ipv4::{format_ipv4, ipv4_text, law_ipv4_round_trip, parse_ipv4, Ipv4};
use crate::order::{holds_position, is_stable_order, ranks_before, stable_order};
use crate::text::{contains, contains_text, to_text};
use crate::utf16::{decode_utf16, from_utf16_lossy};
use vstd::prelude::*;

verus! {

/// The interface type of Ethernet adapters.
pub const IF_TYPE_ETHERNET_CSMACD: u32 = 6;

/// The interface type of Wi-Fi adapters.
pub const IF_TYPE_IEEE80211: u32 = 71;

/// The operational status of an adapter that is up.
pub const IF_OPER_STATUS_UP: i32 = 1;

/// A row of the kernel's forwarding table.
#[derive(Clone, Copy, Debug, PartialEq, Eq, Structural)]
pub struct ForwardRow {
    pub if_index: u32,
    pub prefix_len: u8,
    pub next_hop: Ipv4,
    pub metric: u32,
}

/// What the system tells of one network adapter. The two texts are UTF-16 without the closing
/// null; `unicast` is the first address of the adapter.
pub struct AdapterInfo {
    pub if_index: u32,
    pub if_type: u32,
    pub oper_status: i32,
    pub description: Option<Vec<u16>>,
    pub friendly_name: Option<Vec<u16>>,
    pub unicast: Option<Ipv4>,
}

/// The kinds of adapters that count as physical.
#[derive(Clone, Copy, Debug, PartialEq, Eq, Structural)]
pub enum AdapterType {
    Ethernet,
    WiFi,
}

/// The adapter that domestic traffic goes through.
pub struct PhysicalAdapter {
    pub gateway_ip: Ipv4,
    pub gateway_str: String,
    pub interface_ip_str: String,
    pub if_index: u32,
    pub metric: u32,
    pub name: String,
    pub adapter_type: AdapterType,
}

/// A physical adapter, with its texts as sequences.
pub struct AdapterView {
    pub gateway_ip: Ipv4,
    pub gateway_str: Seq<char>,
    pub interface_ip_str: Seq<char>,
    pub if_index: u32,
    pub metric: u32,
    pub name: Seq<char>,
    pub adapter_type: AdapterType,
}

impl View for PhysicalAdapter {
    type V = AdapterView;

    open spec fn view(&self) -> AdapterView {
        AdapterView {
            gateway_ip: self.gateway_ip,
            gateway_str: self.gateway_str@,
            interface_ip_str: self.interface_ip_str@,
            if_index: self.if_index,
            metric: self.metric,
            name: self.name@,
            adapter_type: self.adapter_type,
        }
    }
}

/// An address that a host gave itself for want of a server: 169.254.0.0/16.
pub open spec fn is_link_local(ip: Ipv4) -> bool {
    ip.a == 169 && ip.b == 254
}

/// A route for all destinations through a gateway that is neither on-link, nor loopback, nor
/// link-local.
pub open spec fn is_default_route(row: ForwardRow) -> bool {
    &&& row.prefix_len == 0
    &&& row.next_hop != (Ipv4 { a: 0, b: 0, c: 0, d: 0 })
    &&& row.next_hop.a != 127
    &&& !is_link_local(row.next_hop)
}

/// A text that the system may leave out.
pub open spec fn decoded(u: Option<Vec<u16>>) -> Seq<char> {
    match u {
        Some(v) => decode_utf16(v@),
        None => seq![],
    }
}

/// The description is that of a virtual adapter or of a VPN tunnel. Descriptions come from drivers,
/// so a maker's name that starts like a VPN's does not count: of Nord's, the products are named.
pub open spec fn describes_tunnel(description: Seq<char>) -> bool {
    ||| contains(description, "Hyper-V"@)
    ||| contains(description, "Virtual"@)
    ||| contains(description, "vEthernet"@)
    ||| contains(description, "TAP"@)
    ||| contains(description, "Wintun"@)
    ||| contains(description, "TunnelBear"@)
    ||| contains(description, "NordVPN"@)
    ||| contains(description, "NordLynx"@)
    ||| contains(description, "Windscribe"@)
}

/// The name is one that virtual switches and VPN clients give to their adapters.
pub open spec fn names_tunnel(name: Seq<char>) -> bool {
    ||| contains(name, "vEthernet"@)
    ||| contains(name, "TAP"@)
    ||| contains(name, "Wintun"@)
    ||| contains(name, "TunnelBear"@)
    ||| contains(name, "Nord"@)
    ||| contains(name, "Windscribe"@)
}

/// The description or the name tells of a virtual adapter or of a VPN tunnel.
pub open spec fn is_virtual(description: Seq<char>, name: Seq<char>) -> bool {
    describes_tunnel(description) || names_tunnel(name)
}

/// An Ethernet or Wi-Fi adapter that is up and is neither virtual nor a tunnel.
pub open spec fn is_physical(ad: AdapterInfo) -> bool {
    &&& ad.if_type == IF_TYPE_ETHERNET_CSMACD || ad.if_type == IF_TYPE_IEEE80211
    &&& ad.oper_status == IF_OPER_STATUS_UP
    &&& !is_virtual(decoded(ad.description), decoded(ad.friendly_name))
}

/// Row `r` is a default route of the physical adapter `a`.
pub open spec fn is_candidate(
    rows: Seq<ForwardRow>,
    ads: Seq<AdapterInfo>,
    r: int,
    a: int,
) -> bool {
    &&& 0 <= r < rows.len()
    &&& 0 <= a < ads.len()
    &&& is_default_route(rows[r])
    &&& ads[a].if_index == rows[r].if_index
    &&& is_physical(ads[a])
}

/// A candidate with a lower metric comes first; with equal metrics, the one whose row stands first
/// in the table; in one row, the adapter that stands first in the list.
pub open spec fn is_preferred(rows: Seq<ForwardRow>, r: int, a: int, r2: int, a2: int) -> bool {
    ||| rows[r].metric < rows[r2].metric
    ||| rows[r].metric == rows[r2].metric && r < r2
    ||| r == r2 && a <= a2
}

/// Row `r` and adapter `a` are the candidate that comes before all others.
pub open spec fn is_choice(rows: Seq<ForwardRow>, ads: Seq<AdapterInfo>, r: int, a: int) -> bool {
    &&& is_candidate(rows, ads, r, a)
    &&& forall|r2: int, a2: int| #[trigger]
        is_candidate(rows, ads, r2, a2) ==> is_preferred(rows, r, a, r2, a2)
}

/// The text of an adapter's own address, empty if it has none or a link-local one.
pub open spec fn local_ip_text(unicast: Option<Ipv4>) -> Seq<char> {
    match unicast {
        Some(ip) => if is_link_local(ip) {
            seq![]
        } else {
            ipv4_text(ip)
        },
        None => seq![],
    }
}

/// What is known of the adapter `ad` as the way out through the route `row`.
pub open spec fn description(row: ForwardRow, ad: AdapterInfo) -> AdapterView {
    AdapterView {
        gateway_ip: row.next_hop,
        gateway_str: ipv4_text(row.next_hop),
        interface_ip_str: local_ip_text(ad.unicast),
        if_index: row.if_index,
        metric: row.metric,
        name: decoded(ad.friendly_name),
        adapter_type: if ad.if_type == IF_TYPE_ETHERNET_CSMACD {
            AdapterType::Ethernet
        } else {
            AdapterType::WiFi
        },
    }
}

/// Whether a row is a default route through a usable gateway.
pub fn accepts_default_route(row: &ForwardRow) -> (r: bool)
    ensures
        r == is_default_route(*row),
{
    let b: Ipv4 = row.next_hop;
    row.prefix_len == 0 && (b.a != 0 || b.b != 0 || b.c != 0 || b.d != 0) && b.a != 127 && (b.a
        != 169 || b.b != 254)
}

/// Reads a text that the system may leave out.
fn decode_name(u: &Option<Vec<u16>>) -> (r: Vec<char>)
    ensures
        r@ == decoded(*u),
{
    match u {
        Some(v) => from_utf16_lossy(v.as_slice()),
        None => {
            let none: Vec<char> = Vec::new();
            assert(none@ =~= seq![]);
            none
        },
    }
}

/// Whether the description is that of a virtual adapter or of a VPN tunnel.
fn is_tunnel_description(desc: &[char]) -> (r: bool)
    ensures
        r == describes_tunnel(desc@),
{
    contains_text(desc, "Hyper-V") || contains_text(desc, "Virtual") || contains_text(
        desc,
        "vEthernet",
    ) || contains_text(desc, "TAP") || contains_text(desc, "Wintun") || contains_text(
        desc,
        "TunnelBear",
    ) || contains_text(desc, "NordVPN") || contains_text(desc, "NordLynx") || contains_text(
        desc,
        "Windscribe",
    )
}

/// Whether the name is one that virtual switches and VPN clients give to their adapters.
fn is_tunnel_name(name: &[char]) -> (r: bool)
    ensures
        r == names_tunnel(name@),
{
    contains_text(name, "vEthernet") || contains_text(name, "TAP") || contains_text(name, "Wintun")
        || contains_text(name, "TunnelBear") || contains_text(name, "Nord") || contains_text(
        name,
        "Windscribe",
    )
}

/// Whether an adapter is a physical one that is up.
pub fn accepts_adapter(ad: &AdapterInfo) -> (r: bool)
    ensures
        r == is_physical(*ad),
{
    if ad.if_type != IF_TYPE_ETHERNET_CSMACD && ad.if_type != IF_TYPE_IEEE80211 {
        return false;
    }
    if ad.oper_status != IF_OPER_STATUS_UP {
        return false;
    }
    let desc: Vec<char> = decode_name(&ad.description);
    let name: Vec<char> = decode_name(&ad.friendly_name);
    !is_tunnel_description(desc.as_slice()) && !is_tunnel_name(name.as_slice())
}

/// Says what is known of an adapter as the way out through a route.
pub fn describe_adapter(row: &ForwardRow, ad: &AdapterInfo) -> (r: PhysicalAdapter)
    ensures
        r@ == description(*row, *ad),
{
    let mut local: String = String::new();
    if let Some(ip) = ad.unicast {
        if ip.a != 169 || ip.b != 254 {
            local = format_ipv4(ip);
        }
    }
    assert(local@ =~= local_ip_text(ad.unicast));
    PhysicalAdapter {
        gateway_ip: row.next_hop,
        gateway_str: format_ipv4(row.next_hop),
        interface_ip_str: local,
        if_index: row.if_index,
        metric: row.metric,
        name: to_text(decode_name(&ad.friendly_name).as_slice()),
        adapter_type: if ad.if_type == IF_TYPE_ETHERNET_CSMACD {
            AdapterType::Ethernet
        } else {
            AdapterType::WiFi
        },
    }
}

/// The positions of the default routes in a forwarding table, lowest metric first, and as they
/// stand in the table where metrics are equal.
pub fn default_routes(rows: &[ForwardRow]) -> (r: Vec<usize>)
    ensures
        forall|i: int|
            0 <= i < r@.len() ==> #[trigger] r@[i] < rows@.len() && is_default_route(
                rows@[r@[i] as int],
            ),
        forall|i: int, j: int|
            0 <= i < j < r@.len() ==> rows@[#[trigger] r@[i] as int].metric < rows@[#[trigger] r@[j] as int].metric
                || (rows@[r@[i] as int].metric == rows@[r@[j] as int].metric && r@[i] < r@[j]),
        forall|k: int|
            0 <= k < rows@.len() && is_default_route(rows@[k]) ==> #[trigger] holds_position(r@, k),
{
    let n: usize = rows.len();
    let mut found: Vec<usize> = Vec::new();
    let mut keys: Vec<u32> = Vec::new();
    let mut i: usize = 0;
    while i < n
        invariant
            i <= n,
            n == rows@.len(),
            keys@.len() == found@.len(),
            forall|k: int|
                0 <= k < found@.len() ==> #[trigger] found@[k] < i && is_default_route(
                    rows@[found@[k] as int],
                ) && keys@[k] == rows@[found@[k] as int].metric,
            forall|k: int, l: int| 0 <= k < l < found@.len() ==> found@[k] < found@[l],
            forall|k: int|
                0 <= k < i && is_default_route(rows@[k]) ==> #[trigger] holds_position(found@, k),
        decreases n - i,
    {
        let ghost before: Seq<usize> = found@;
        if accepts_default_route(&rows[i]) {
            found.push(i);
            keys.push(rows[i].metric);
            assert(found@[before.len() as int] == i);
        }
        assert forall|k: int| 0 <= k < i + 1 && is_default_route(rows@[k]) implies #[trigger] holds_position(found@, k) by {
            if k < i {
                assert(holds_position(before, k));
                let j: int = choose|j: int| 0 <= j < before.len() && #[trigger] before[j] == k;
                assert(found@[j] == k);
            }
        }
        i = i + 1;
    }
    let order: Vec<usize> = stable_order(keys.as_slice());
    let mut out: Vec<usize> = Vec::new();
    let mut m: usize = 0;
    while m < order.len()
        invariant
            m <= order@.len(),
            keys@.len() == found@.len(),
            is_stable_order(keys@, order@),
            out@.len() == m,
            forall|k: int| 0 <= k < m ==> #[trigger] out@[k] == found@[order@[k] as int],
        decreases order@.len() - m,
    {
        out.push(found[order[m]]);
        m = m + 1;
    }
    proof {
        assert forall|x: int, y: int| 0 <= x < y < out@.len() implies rows@[#[trigger] out@[x] as int].metric
            < rows@[#[trigger] out@[y] as int].metric || (rows@[out@[x] as int].metric
            == rows@[out@[y] as int].metric && out@[x] < out@[y]) by {
            assert(ranks_before(keys@, order@[x] as int, order@[y] as int));
        }
        assert forall|k: int| 0 <= k < rows@.len() && is_default_route(rows@[k]) implies #[trigger] holds_position(out@, k) by {
            assert(holds_position(found@, k));
            let j: int = choose|j: int| 0 <= j < found@.len() && #[trigger] found@[j] == k;
            assert(holds_position(order@, j));
            let l: int = choose|l: int| 0 <= l < order@.len() && #[trigger] order@[l] == j;
            assert(out@[l] == k);
        }
    }
    out
}

/// Chooses the physical adapter that faces the internet: of the default routes of physical
/// adapters, the one with the lowest metric. `table` is the kernel's forwarding table and
/// `adapters` its list of adapters, where they could be read.
pub fn detect_physical_interface(
    table: Option<&[ForwardRow]>,
    adapters: Option<&[AdapterInfo]>,
) -> (res: Option<PhysicalAdapter>)
    ensures
        table is None || adapters is None ==> res is None,
        table is Some && adapters is Some ==> match res {
            Some(p) => exists|r: int, a: int| #[trigger]
                is_choice(table->0@, adapters->0@, r, a) && p@ == description(table->0@[r], adapters->0@[a]),
            None => forall|r: int, a: int| !is_candidate(table->0@, adapters->0@, r, a),
        },
        res matches Some(p) ==> exists|r: int, a: int|
            {
                &&& #[trigger] is_choice(table->0@, adapters->0@, r, a)
                &&& 0 <= r < table->0@.len()
                &&& 0 <= a < adapters->0@.len()
                &&& table->0@[r].prefix_len == 0
                &&& table->0@[r].if_index == p.if_index
                &&& table->0@[r].next_hop == p.gateway_ip
                &&& table->0@[r].metric == p.metric
                &&& p.gateway_str@ == ipv4_text(p.gateway_ip)
                &&& adapters->0@[a].if_index == p.if_index
                &&& (adapters->0@[a].if_type == 6 && p.adapter_type == AdapterType::Ethernet) || (
                adapters->0@[a].if_type == 71 && p.adapter_type == AdapterType::WiFi)
                &&& adapters->0@[a].oper_status == 1
            },
{
    let rows: &[ForwardRow] = match table {
        Some(t) => t,
        None => {
            return None;
        },
    };
    let ads: &[AdapterInfo] = match adapters {
        Some(l) => l,
        None => {
            return None;
        },
    };
    let n: usize = rows.len();
    let routes: Vec<usize> = default_routes(rows);
    let mut i: usize = 0;
    while i < routes.len()
        invariant
            i <= routes@.len(),
            n == rows@.len(),
            table is Some && adapters is Some,
            rows == table->0,
            ads == adapters->0,
            forall|k: int|
                0 <= k < routes@.len() ==> #[trigger] routes@[k] < rows@.len() && is_default_route(
                    rows@[routes@[k] as int],
                ),
            forall|k: int, l: int|
                0 <= k < l < routes@.len() ==> rows@[#[trigger] routes@[k] as int].metric
                    < rows@[#[trigger] routes@[l] as int].metric || (rows@[routes@[k] as int].metric
                    == rows@[routes@[l] as int].metric && routes@[k] < routes@[l]),
            forall|k: int|
                0 <= k < rows@.len() && is_default_route(rows@[k]) ==> #[trigger] holds_position(routes@, k),
            forall|k: int, a: int| 0 <= k < i ==> !(#[trigger] is_candidate(rows@, ads@, routes@[k] as int, a)),
        decreases routes@.len() - i,
    {
        let r: usize = routes[i];
        let mut j: usize = 0;
        while j < ads.len()
            invariant
                i < routes@.len(),
                j <= ads@.len(),
                r == routes@[i as int],
                r < rows@.len(),
                is_default_route(rows@[r as int]),
                table is Some && adapters is Some,
                rows == table->0,
                ads == adapters->0,
                forall|k: int, l: int|
                    0 <= k < l < routes@.len() ==> rows@[#[trigger] routes@[k] as int].metric
                        < rows@[#[trigger] routes@[l] as int].metric || (
                    rows@[routes@[k] as int].metric == rows@[routes@[l] as int].metric && routes@[k]
                        < routes@[l]),
                forall|k: int|
                    0 <= k < rows@.len() && is_default_route(rows@[k])
                        ==> #[trigger] holds_position(routes@, k),
                forall|k: int, a: int|
                    0 <= k < i ==> !(#[trigger] is_candidate(rows@, ads@, routes@[k] as int, a)),
                forall|a: int| 0 <= a < j ==> !is_candidate(rows@, ads@, r as int, a),
            decreases ads@.len() - j,
        {
            if ads[j].if_index == rows[r].if_index && accepts_adapter(&ads[j]) {
                let p: PhysicalAdapter = describe_adapter(&rows[r], &ads[j]);
                proof {
                    assert(is_candidate(rows@, ads@, r as int, j as int));
                    assert forall|r2: int, a2: int| #[trigger]
                        is_candidate(rows@, ads@, r2, a2) implies is_preferred(
                        rows@,
                        r as int,
                        j as int,
                        r2,
                        a2,
                    ) by {
                        assert(holds_position(routes@, r2));
                        let k: int = choose|k: int| 0 <= k < routes@.len() && #[trigger] routes@[k] == r2;
                        if k < i {
                            assert(!is_candidate(rows@, ads@, routes@[k] as int, a2));
                        } else if k == i {
                        } else {
                            assert(rows@[routes@[i as int] as int].metric
                                < rows@[routes@[k] as int].metric || routes@[i as int] < routes@[k]);
                        }
                    }
                    assert(is_choice(rows@, ads@, r as int, j as int));
                }
                return Some(p);
            }
            j = j + 1;
        }
        i = i + 1;
    }
    proof {
        assert forall|r: int, a: int| !is_candidate(rows@, ads@, r, a) by {
            if is_candidate(rows@, ads@, r, a) {
                assert(holds_position(routes@, r));
                let k: int = choose|k: int| 0 <= k < routes@.len() && #[trigger] routes@[k] == r;
                assert(!is_candidate(rows@, ads@, routes@[k] as int, a));
            }
        }
    }
    None
}

/// There is at most one choice, so what is detected does not depend on how it is searched for.
pub proof fn law_choice_unique(
    rows: Seq<ForwardRow>,
    ads: Seq<AdapterInfo>,
    r: int,
    a: int,
    r2: int,
    a2: int,
)
    requires
        is_choice(rows, ads, r, a),
        is_choice(rows, ads, r2, a2),
    ensures
        r == r2,
        a == a2,
{
    assert(is_preferred(rows, r, a, r2, a2));
    assert(is_preferred(rows, r2, a2, r, a));
}

/// What is detected is a physical adapter, one that neither its description nor its name tells to
/// be virtual or a tunnel, and no default route of a physical adapter has a lower metric.
pub proof fn law_choice_has_lowest_metric(
    rows: Seq<ForwardRow>,
    ads: Seq<AdapterInfo>,
    r: int,
    a: int,
    r2: int,
    a2: int,
)
    requires
        is_choice(rows, ads, r, a),
        is_candidate(rows, ads, r2, a2),
    ensures
        is_physical(ads[a]),
        !describes_tunnel(decoded(ads[a].description)),
        !names_tunnel(decoded(ads[a].friendly_name)),
        rows[r].metric <= rows[r2].metric,
{
    assert(is_preferred(rows, r, a, r2, a2));
}

/// A row of the table and an adapter are a candidate if and only if the row leads everywhere through
/// a gateway that is not 0.0.0.0, not in 127.0.0.0/8 and not in 169.254.0.0/16, the adapter has the
/// interface of the row, is Ethernet or Wi-Fi and up, and neither its description nor its name holds
/// a word of a virtual adapter or a tunnel.
pub proof fn law_candidate_iff_usable(rows: Seq<ForwardRow>, ads: Seq<AdapterInfo>, r: int, a: int)
    requires
        0 <= r < rows.len(),
        0 <= a < ads.len(),
    ensures
        is_candidate(rows, ads, r, a) <==> {
            &&& rows[r].prefix_len == 0
            &&& rows[r].next_hop.a != 0 || rows[r].next_hop.b != 0 || rows[r].next_hop.c != 0
                || rows[r].next_hop.d != 0
            &&& rows[r].next_hop.a != 127
            &&& rows[r].next_hop.a != 169 || rows[r].next_hop.b != 254
            &&& ads[a].if_index == rows[r].if_index
            &&& ads[a].if_type == 6 || ads[a].if_type == 71
            &&& ads[a].oper_status == 1
            &&& match ads[a].description {
                Some(v) => !contains(decode_utf16(v@), "Hyper-V"@)
                    && !contains(decode_utf16(v@), "Virtual"@)
                    && !contains(decode_utf16(v@), "vEthernet"@)
                    && !contains(decode_utf16(v@), "TAP"@)
                    && !contains(decode_utf16(v@), "Wintun"@)
                    && !contains(decode_utf16(v@), "TunnelBear"@)
                    && !contains(decode_utf16(v@), "NordVPN"@)
                    && !contains(decode_utf16(v@), "NordLynx"@)
                    && !contains(decode_utf16(v@), "Windscribe"@),
                None => true,
            }
            &&& match ads[a].friendly_name {
                Some(v) => !contains(decode_utf16(v@), "vEthernet"@)
                    && !contains(decode_utf16(v@), "TAP"@)
                    && !contains(decode_utf16(v@), "Wintun"@)
                    && !contains(decode_utf16(v@), "TunnelBear"@)
                    && !contains(decode_utf16(v@), "Nord"@)
                    && !contains(decode_utf16(v@), "Windscribe"@),
                None => true,
            }
        },
{
    let none: Seq<char> = seq![];
    reveal_strlit("Hyper-V");
    reveal_strlit("Nord");
    reveal_strlit("NordLynx");
    reveal_strlit("NordVPN");
    reveal_strlit("TAP");
    reveal_strlit("TunnelBear");
    reveal_strlit("Virtual");
    reveal_strlit("Windscribe");
    reveal_strlit("Wintun");
    reveal_strlit("vEthernet");
    assert(!describes_tunnel(none));
    assert(!names_tunnel(none));
}

/// Whatever is detected, its gateway is the next hop of the row, its index and metric are those of
/// the row, and its name, type and own address are those of the adapter.
pub proof fn law_detection_tells_row_and_adapter(row: ForwardRow, ad: AdapterInfo)
    ensures
        ({
            let p: AdapterView = description(row, ad);
            &&& p.gateway_ip == row.next_hop
            &&& parse_ipv4(p.gateway_str) == Some(row.next_hop)
            &&& p.if_index == row.if_index
            &&& p.metric == row.metric
            &&& p.adapter_type == AdapterType::Ethernet <==> ad.if_type == 6
            &&& match ad.friendly_name {
                Some(v) => p.name == decode_utf16(v@),
                None => p.name.len() == 0,
            }
            &&& match ad.unicast {
                Some(ip) => if ip.a == 169 && ip.b == 254 {
                    p.interface_ip_str.len() == 0
                } else {
                    parse_ipv4(p.interface_ip_str) == Some(ip)
                },
                None => p.interface_ip_str.len() == 0,
            }
        }),
{
    law_ipv4_round_trip(row.next_hop);
    if ad.unicast is Some {
        law_ipv4_round_trip(ad.unicast->0);
    }
}

/// Of all candidates the choice has the lowest metric; of those with that metric, the first row; of
/// the adapters for that row, the first.
pub proof fn law_choice_comes_first(
    rows: Seq<ForwardRow>,
    ads: Seq<AdapterInfo>,
    r: int,
    a: int,
    r2: int,
    a2: int,
)
    requires
        is_choice(rows, ads, r, a),
        is_candidate(rows, ads, r2, a2),
    ensures
        is_candidate(rows, ads, r, a),
        rows[r].metric <= rows[r2].metric,
        rows[r].metric == rows[r2].metric ==> r <= r2,
        r == r2 ==> a <= a2,
{
    assert(is_preferred(rows, r, a, r2, a2));
}

/// The parts of an adapter that contracts speak of are its fields.
pub proof fn law_adapter_view(p: PhysicalAdapter)
    ensures
        p@.gateway_ip == p.gateway_ip,
        p@.gateway_str == p.gateway_str@,
        p@.interface_ip_str == p.interface_ip_str@,
        p@.if_index == p.if_index,
        p@.metric == p.metric,
        p@.name == p.name@,
        p@.adapter_type == p.adapter_type,
{
}

} // verus!
