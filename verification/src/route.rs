//! The routes that take domestic subnets past the tunnel: which to write, which to remove, and how
//! to tell that they are in place.
use crate::cidr::Cidr;
use crate::ipv4::{
    ipv4_text, is_address_char, law_ipv4_read_iff_dotted, law_ipv4_round_trip,
    lemma_address_chars, parse_ipv4, parse_ipv4_chars, Ipv4,
};
use crate::text::{lemma_split_once_char, lemma_split_once_char_parts, split_once, split_once_chars};
use crate::utf16::{
    decode_utf16, from_utf16_lossy, law_utf16_round_trip, null_terminated, unit_rows, utf16,
};
use vstd::prelude::*;

verus! {

/// The code of a call that succeeded.
pub const NO_ERROR: u32 = 0;

/// The code of a route that is there already.
pub const ERROR_OBJECT_ALREADY_EXISTS: u32 = 5010;

/// The metric of the routes that are written.
pub const ROUTE_METRIC: u32 = 1;

/// A route to write into the kernel's table.
#[derive(Clone, Copy, Debug, PartialEq, Eq, Structural)]
pub struct RouteRow {
    pub destination: Cidr,
    pub next_hop: Ipv4,
    pub if_index: u32,
    pub metric: u32,
}

/// The route of one subnet through a gateway.
pub open spec fn route_to(gateway_ip: Ipv4, if_index: u32, cidr: Cidr) -> RouteRow {
    RouteRow { destination: cidr, next_hop: gateway_ip, if_index, metric: ROUTE_METRIC }
}

/// The routes of all subnets through a gateway, in order.
pub open spec fn routes_to(gateway_ip: Ipv4, if_index: u32, cidrs: Seq<Cidr>) -> Seq<RouteRow> {
    Seq::new(cidrs.len(), |i: int| route_to(gateway_ip, if_index, cidrs[i]))
}

/// The routes to write for all subnets.
pub fn plan_routes(gateway_ip: Ipv4, if_index: u32, cidrs: &[Cidr]) -> (r: Vec<RouteRow>)
    ensures
        r@ == routes_to(gateway_ip, if_index, cidrs@),
{
    let mut out: Vec<RouteRow> = Vec::new();
    let mut i: usize = 0;
    while i < cidrs.len()
        invariant
            i <= cidrs@.len(),
            out@ == routes_to(gateway_ip, if_index, cidrs@.take(i as int)),
        decreases cidrs@.len() - i,
    {
        out.push(
            RouteRow {
                destination: cidrs[i],
                next_hop: gateway_ip,
                if_index,
                metric: ROUTE_METRIC,
            },
        );
        i = i + 1;
        assert(out@ =~= routes_to(gateway_ip, if_index, cidrs@.take(i as int)));
    }
    assert(cidrs@.take(cidrs@.len() as int) =~= cidrs@);
    out
}

/// The codes of a write that leaves the route in place.
pub open spec fn is_applied(code: u32) -> bool {
    code == NO_ERROR || code == ERROR_OBJECT_ALREADY_EXISTS
}

/// A call that came back with `code` did what it was for; for writes, so did one that found its
/// route there.
pub open spec fn is_done(code: u32, write: bool) -> bool {
    code == NO_ERROR || (write && is_applied(code))
}

/// The number of codes among `codes` that count as done; for writes, a route that is there already
/// counts too.
pub open spec fn count_done(codes: Seq<u32>, write: bool) -> nat
    decreases codes.len(),
{
    if codes.len() == 0 {
        0
    } else {
        let last: u32 = codes.last();
        count_done(codes.drop_last(), write) + if is_done(last, write) {
            1nat
        } else {
            0nat
        }
    }
}

fn count_codes(codes: &[u32], write: bool) -> (r: usize)
    ensures
        r == count_done(codes@, write),
        r <= codes@.len(),
{
    let mut count: usize = 0;
    let mut i: usize = 0;
    while i < codes.len()
        invariant
            i <= codes@.len(),
            count <= i,
            count == count_done(codes@.take(i as int), write),
        decreases codes@.len() - i,
    {
        let c: u32 = codes[i];
        assert(codes@.take(i + 1).drop_last() =~= codes@.take(i as int));
        if c == NO_ERROR || (write && c == ERROR_OBJECT_ALREADY_EXISTS) {
            count = count + 1;
        }
        i = i + 1;
    }
    assert(codes@.take(codes@.len() as int) =~= codes@);
    count
}

/// How many of the written routes are in place, from the codes that the writes came back with.
pub fn count_applied(codes: &[u32]) -> (r: usize)
    ensures
        r == count_done(codes@, true),
        r <= codes@.len(),
{
    count_codes(codes, true)
}

/// How many routes were removed, from the codes that the removals came back with.
pub fn count_deleted(codes: &[u32]) -> (r: usize)
    ensures
        r == count_done(codes@, false),
        r <= codes@.len(),
{
    count_codes(codes, false)
}

/// The subnet that stands for all others when the table is looked at: 2.57.3.0/24.
pub open spec fn sample_cidr() -> Cidr {
    Cidr { ip: Ipv4 { a: 2, b: 57, c: 3, d: 0 }, prefix_len: 24 }
}

/// The subnet to look up in the table.
pub fn sample_net() -> (r: Cidr)
    ensures
        r == sample_cidr(),
{
    Cidr { ip: Ipv4 { a: 2, b: 57, c: 3, d: 0 }, prefix_len: 24 }
}

/// A lookup that came back with `code`, `next_hop` and `found_index` shows a route through the
/// given gateway.
pub open spec fn shows_route(
    code: u32,
    next_hop: Ipv4,
    found_index: u32,
    gateway_ip: Ipv4,
    if_index: u32,
) -> bool {
    code == NO_ERROR && next_hop == gateway_ip && found_index == if_index
}

/// Whether the sample subnet is routed through the given gateway, from the code that the lookup
/// came back with and the next hop and interface that it found.
pub fn is_route_active(
    code: u32,
    next_hop: Ipv4,
    found_index: u32,
    gateway_ip: Ipv4,
    if_index: u32,
) -> (r: bool)
    ensures
        r == shows_route(code, next_hop, found_index, gateway_ip, if_index),
{
    code == NO_ERROR && next_hop == gateway_ip && found_index == if_index
}

/// Where the sample subnet is among the subnets, a lookup that finds the route written for it shows
/// that route, and shows none through another gateway or interface: after a change of adapter the
/// routes are written anew.
pub proof fn law_written_sample_is_active(
    gateway_ip: Ipv4,
    if_index: u32,
    cidrs: Seq<Cidr>,
    i: int,
    other_gateway: Ipv4,
    other_index: u32,
)
    requires
        0 <= i < cidrs.len(),
        cidrs[i] == sample_cidr(),
    ensures
        ({
            let row: RouteRow = routes_to(gateway_ip, if_index, cidrs)[i];
            &&& row.destination == sample_cidr()
            &&& shows_route(NO_ERROR, row.next_hop, row.if_index, gateway_ip, if_index)
            &&& (other_gateway != gateway_ip || other_index != if_index) ==> !shows_route(
                NO_ERROR,
                row.next_hop,
                row.if_index,
                other_gateway,
                other_index,
            )
        }),
{
}

/// The routes that are written have the subnets as their destinations, one each and in order, and
/// all go through the gateway.
pub proof fn law_routes_cover_subnets(gateway_ip: Ipv4, if_index: u32, cidrs: Seq<Cidr>)
    ensures
        routes_to(gateway_ip, if_index, cidrs).map_values(|r: RouteRow| r.destination) == cidrs,
        forall|i: int|
            0 <= i < cidrs.len() ==> (#[trigger] routes_to(gateway_ip, if_index, cidrs)[i]).next_hop
                == gateway_ip && routes_to(gateway_ip, if_index, cidrs)[i].if_index == if_index,
{
    assert(routes_to(gateway_ip, if_index, cidrs).map_values(|r: RouteRow| r.destination)
        =~= cidrs);
}

/// The rows that lead to one of the subnets.
pub open spec fn leads_to(cidrs: Seq<Cidr>) -> spec_fn(RouteRow) -> bool {
    |row: RouteRow| cidrs.contains(row.destination)
}

/// The rows of a table that lead to one of the subnets, in order.
pub open spec fn subnet_rows(table: Seq<RouteRow>, cidrs: Seq<Cidr>) -> Seq<RouteRow> {
    table.filter(leads_to(cidrs))
}

/// Whether `cidr` is one of the subnets.
pub fn has_subnet(cidr: Cidr, cidrs: &[Cidr]) -> (r: bool)
    ensures
        r == cidrs@.contains(cidr),
{
    let mut i: usize = 0;
    while i < cidrs.len()
        invariant
            i <= cidrs@.len(),
            forall|k: int| 0 <= k < i ==> cidrs@[k] != cidr,
        decreases cidrs@.len() - i,
    {
        if cidrs[i] == cidr {
            return true;
        }
        i = i + 1;
    }
    false
}

/// The rows to remove from a table so that no route to a subnet is left: those that lead to one of
/// the subnets, through whatever gateway, in order.
pub fn rows_to_remove(table: &[RouteRow], cidrs: &[Cidr]) -> (r: Vec<RouteRow>)
    ensures
        r@ == subnet_rows(table@, cidrs@),
{
    let mut out: Vec<RouteRow> = Vec::new();
    let mut i: usize = 0;
    assert(table@.take(0).filter(leads_to(cidrs@)) =~= seq![]) by {
        reveal(Seq::filter);
    }
    while i < table.len()
        invariant
            i <= table@.len(),
            out@ == table@.take(i as int).filter(leads_to(cidrs@)),
        decreases table@.len() - i,
    {
        proof {
            assert(table@.take(i + 1).drop_last() =~= table@.take(i as int));
            reveal(Seq::filter);
        }
        if has_subnet(table[i].destination, cidrs) {
            out.push(table[i]);
        }
        i = i + 1;
    }
    assert(table@.take(table@.len() as int) =~= table@);
    out
}

/// The rows that are not among `removed`.
pub open spec fn not_among(removed: Seq<RouteRow>) -> spec_fn(RouteRow) -> bool {
    |row: RouteRow| !removed.contains(row)
}

/// A table once the rows of `removed` are gone from it.
pub open spec fn left_after(table: Seq<RouteRow>, removed: Seq<RouteRow>) -> Seq<RouteRow> {
    table.filter(not_among(removed))
}

/// No row of the table leads to one of the subnets.
pub open spec fn spares_subnets(table: Seq<RouteRow>, cidrs: Seq<Cidr>) -> bool {
    forall|row: RouteRow| #[trigger] table.contains(row) ==> !cidrs.contains(row.destination)
}

/// How often a row stands in a filtered table.
proof fn lemma_filter_count(s: Seq<RouteRow>, p: spec_fn(RouteRow) -> bool, x: RouteRow)
    ensures
        s.filter(p).to_multiset().count(x) == (if p(x) {
            s.to_multiset().count(x)
        } else {
            0
        }),
    decreases s.len(),
{
    reveal(Seq::filter);
    broadcast use vstd::seq_lib::group_to_multiset_ensures;

    if s.len() == 0 {
        assert(s.filter(p) =~= s);
        assert(!s.contains(x));
    } else {
        let init: Seq<RouteRow> = s.drop_last();
        lemma_filter_count(init, p, x);
        assert(s =~= init.push(s.last()));
    }
}

/// A row stands in a filtered table if and only if it stands in the table and passes.
proof fn lemma_filter_holds(s: Seq<RouteRow>, p: spec_fn(RouteRow) -> bool, x: RouteRow)
    ensures
        s.filter(p).contains(x) <==> s.contains(x) && p(x),
{
    broadcast use vstd::seq_lib::group_to_multiset_ensures;

    lemma_filter_count(s, p, x);
    assert(s.contains(x) <==> s.to_multiset().count(x) > 0);
    assert(s.filter(p).contains(x) <==> s.filter(p).to_multiset().count(x) > 0);
}

/// Removing the rows to remove from any table leaves no row that leads to one of the subnets, and
/// leaves every other row as often as it stood there.
pub proof fn law_removal_takes_subnet_rows_alone(table: Seq<RouteRow>, cidrs: Seq<Cidr>)
    ensures
        ({
            let left: Seq<RouteRow> = left_after(table, subnet_rows(table, cidrs));
            &&& spares_subnets(left, cidrs)
            &&& forall|row: RouteRow|
                !cidrs.contains(row.destination) ==> #[trigger] left.to_multiset().count(row)
                    == table.to_multiset().count(row)
        }),
{
    let removed: Seq<RouteRow> = subnet_rows(table, cidrs);
    let left: Seq<RouteRow> = left_after(table, removed);
    assert forall|row: RouteRow| #[trigger] left.contains(row) implies !cidrs.contains(
        row.destination,
    ) by {
        lemma_filter_holds(table, not_among(removed), row);
        lemma_filter_holds(table, leads_to(cidrs), row);
    }
    assert forall|row: RouteRow|
        !cidrs.contains(row.destination) implies #[trigger] left.to_multiset().count(row)
        == table.to_multiset().count(row) by {
        lemma_filter_holds(table, leads_to(cidrs), row);
        lemma_filter_count(table, not_among(removed), row);
    }
}

/// Every route that is written leads to one of the subnets.
proof fn lemma_routes_lead(gateway_ip: Ipv4, if_index: u32, cidrs: Seq<Cidr>, row: RouteRow)
    requires
        routes_to(gateway_ip, if_index, cidrs).contains(row),
    ensures
        cidrs.contains(row.destination),
        row.next_hop == gateway_ip,
        row.if_index == if_index,
{
    let rows: Seq<RouteRow> = routes_to(gateway_ip, if_index, cidrs);
    let i: int = choose|i: int| 0 <= i < rows.len() && rows[i] == row;
    assert(cidrs[i] == row.destination);
}

/// `table` holds the rows of `before` and those of `added`, in whatever order.
pub open spec fn holds_both(
    table: Seq<RouteRow>,
    before: Seq<RouteRow>,
    added: Seq<RouteRow>,
) -> bool {
    table.to_multiset() == before.to_multiset().add(added.to_multiset())
}

/// Removal undoes what was written. Where a table had no route to any subnet and the routes of all
/// subnets were then added to it, the rows to remove are those routes, as many as there are
/// subnets; without them the table is what it was; and where every removal succeeds, that many are
/// counted.
pub proof fn law_removal_undoes_routes(
    before: Seq<RouteRow>,
    written: Seq<RouteRow>,
    gateway_ip: Ipv4,
    if_index: u32,
    cidrs: Seq<Cidr>,
    codes: Seq<u32>,
)
    requires
        spares_subnets(before, cidrs),
        holds_both(written, before, routes_to(gateway_ip, if_index, cidrs)),
        codes.len() == subnet_rows(written, cidrs).len(),
        forall|i: int| 0 <= i < codes.len() ==> #[trigger] codes[i] == NO_ERROR,
    ensures
        ({
            let removed: Seq<RouteRow> = subnet_rows(written, cidrs);
            &&& removed.to_multiset() == routes_to(gateway_ip, if_index, cidrs).to_multiset()
            &&& removed.len() == cidrs.len()
            &&& left_after(written, removed).to_multiset() == before.to_multiset()
            &&& count_done(codes, false) == cidrs.len()
        }),
{
    broadcast use vstd::seq_lib::group_to_multiset_ensures;

    let rows: Seq<RouteRow> = routes_to(gateway_ip, if_index, cidrs);
    let removed: Seq<RouteRow> = subnet_rows(written, cidrs);
    let left: Seq<RouteRow> = left_after(written, removed);
    assert forall|x: RouteRow| removed.to_multiset().count(x) == rows.to_multiset().count(x) by {
        lemma_filter_count(written, leads_to(cidrs), x);
        assert(before.contains(x) <==> before.to_multiset().count(x) > 0);
        assert(rows.contains(x) <==> rows.to_multiset().count(x) > 0);
        if rows.contains(x) {
            lemma_routes_lead(gateway_ip, if_index, cidrs, x);
        }
    }
    assert(removed.to_multiset() =~= rows.to_multiset());
    assert(removed.len() == removed.to_multiset().len());
    assert(rows.len() == rows.to_multiset().len());
    assert forall|x: RouteRow| left.to_multiset().count(x) == before.to_multiset().count(x) by {
        lemma_filter_count(written, not_among(removed), x);
        assert(before.contains(x) <==> before.to_multiset().count(x) > 0);
        assert(rows.contains(x) <==> rows.to_multiset().count(x) > 0);
        assert(removed.contains(x) <==> removed.to_multiset().count(x) > 0);
        if rows.contains(x) {
            lemma_routes_lead(gateway_ip, if_index, cidrs, x);
        }
    }
    assert(left.to_multiset() =~= before.to_multiset());
    law_all_done(codes, false);
}

/// Routes move to another gateway without a trace of the first. Where the routes of all subnets were
/// written through one gateway, the rows to remove are removed, and the routes through another
/// gateway are added, the table is as if the first gateway had never been: every subnet is routed
/// through the second, and no row that leads to a subnet goes through any other. Where no write is
/// refused, as many are counted as there are subnets.
pub proof fn law_migration_leaves_no_old_route(
    before: Seq<RouteRow>,
    written: Seq<RouteRow>,
    after: Seq<RouteRow>,
    old_gateway: Ipv4,
    old_index: u32,
    gateway_ip: Ipv4,
    if_index: u32,
    cidrs: Seq<Cidr>,
    codes: Seq<u32>,
)
    requires
        spares_subnets(before, cidrs),
        holds_both(written, before, routes_to(old_gateway, old_index, cidrs)),
        holds_both(
            after,
            left_after(written, subnet_rows(written, cidrs)),
            routes_to(gateway_ip, if_index, cidrs),
        ),
        codes.len() == cidrs.len(),
        forall|i: int| 0 <= i < codes.len() ==> is_applied(#[trigger] codes[i]),
    ensures
        holds_both(after, before, routes_to(gateway_ip, if_index, cidrs)),
        forall|c: Cidr| #[trigger]
            cidrs.contains(c) ==> after.contains(route_to(gateway_ip, if_index, c)),
        forall|row: RouteRow| #[trigger]
            after.contains(row) && cidrs.contains(row.destination) ==> row.next_hop == gateway_ip
                && row.if_index == if_index,
        count_done(codes, true) == cidrs.len(),
{
    broadcast use vstd::seq_lib::group_to_multiset_ensures;

    let zeros: Seq<u32> = Seq::new(subnet_rows(written, cidrs).len(), |i: int| NO_ERROR);
    law_removal_undoes_routes(before, written, old_gateway, old_index, cidrs, zeros);
    let rows: Seq<RouteRow> = routes_to(gateway_ip, if_index, cidrs);
    assert forall|c: Cidr| #[trigger] cidrs.contains(c) implies after.contains(
        route_to(gateway_ip, if_index, c),
    ) by {
        let i: int = choose|i: int| 0 <= i < cidrs.len() && cidrs[i] == c;
        let x: RouteRow = route_to(gateway_ip, if_index, c);
        assert(rows[i] == x);
        assert(rows.contains(x));
        assert(rows.to_multiset().count(x) > 0);
        assert(after.to_multiset().count(x) > 0);
    }
    assert forall|row: RouteRow| #[trigger]
        after.contains(row) && cidrs.contains(row.destination) implies row.next_hop == gateway_ip
        && row.if_index == if_index by {
        assert(after.to_multiset().count(row) > 0);
        assert(before.contains(row) <==> before.to_multiset().count(row) > 0);
        assert(rows.contains(row) <==> rows.to_multiset().count(row) > 0);
        lemma_routes_lead(gateway_ip, if_index, cidrs, row);
    }
    law_all_done(codes, true);
}

/// Where every call did what it was for, all of them are counted.
pub proof fn law_all_done(codes: Seq<u32>, write: bool)
    requires
        forall|i: int| 0 <= i < codes.len() ==> is_done(#[trigger] codes[i], write),
    ensures
        count_done(codes, write) == codes.len(),
    decreases codes.len(),
{
    if codes.len() > 0 {
        assert(is_done(codes[codes.len() - 1], write));
        assert forall|i: int| 0 <= i < codes.drop_last().len() implies is_done(
            #[trigger] codes.drop_last()[i],
            write,
        ) by {
            assert(is_done(codes[i], write));
        }
        law_all_done(codes.drop_last(), write);
    }
}

/// The destination address in the name of a persistent route: what stands before the first comma,
/// if it is an address.
pub open spec fn persistent_address(name: Seq<u16>) -> Option<Ipv4> {
    match split_once(decode_utf16(name), seq![',']) {
        Some((first, rest)) => parse_ipv4(first),
        None => None,
    }
}

/// `ip` is the network address of one of the subnets.
pub open spec fn is_network(ip: Ipv4, cidrs: Seq<Cidr>) -> bool {
    exists|i: int| 0 <= i < cidrs.len() && (#[trigger] cidrs[i]).ip == ip
}

/// The persistent route of that name leads to one of the subnets.
pub open spec fn is_stale(name: Seq<u16>, cidrs: Seq<Cidr>) -> bool {
    match persistent_address(name) {
        Some(ip) => is_network(ip, cidrs),
        None => false,
    }
}

/// The names of the persistent routes to remove, each with a null unit behind it, in order.
pub open spec fn stale_names(names: Seq<Vec<u16>>, cidrs: Seq<Cidr>) -> Seq<Seq<u16>>
    decreases names.len(),
{
    if names.len() == 0 {
        seq![]
    } else {
        let init: Seq<Seq<u16>> = stale_names(names.drop_last(), cidrs);
        if is_stale(names.last()@, cidrs) {
            init.push(names.last()@.push(0))
        } else {
            init
        }
    }
}

/// Whether `ip` is the network address of one of the subnets.
pub fn has_network(ip: Ipv4, cidrs: &[Cidr]) -> (r: bool)
    ensures
        r == is_network(ip, cidrs@),
{
    let mut i: usize = 0;
    while i < cidrs.len()
        invariant
            i <= cidrs@.len(),
            forall|k: int| 0 <= k < i ==> (#[trigger] cidrs@[k]).ip != ip,
        decreases cidrs@.len() - i,
    {
        if cidrs[i].ip == ip {
            return true;
        }
        i = i + 1;
    }
    false
}

/// Whether the persistent route of that name leads to one of the subnets.
pub fn is_stale_route(name: &[u16], cidrs: &[Cidr]) -> (r: bool)
    ensures
        r == is_stale(name@, cidrs@),
{
    let text: Vec<char> = from_utf16_lossy(name);
    let comma: Vec<char> = vec![','];
    assert(comma@ =~= seq![',']);
    match split_once_chars(text.as_slice(), comma.as_slice()) {
        Some((first, _)) => match parse_ipv4_chars(first) {
            Some(ip) => has_network(ip, cidrs),
            None => false,
        },
        None => false,
    }
}

/// The persistent routes to remove, of those with the given names: the names of the ones that lead
/// to one of the subnets, null-terminated.
pub fn purge_stale_persistent_routes(names: &[Vec<u16>], cidrs: &[Cidr]) -> (r: Vec<Vec<u16>>)
    ensures
        unit_rows(r@) == stale_names(names@, cidrs@),
{
    let mut out: Vec<Vec<u16>> = Vec::new();
    let mut i: usize = 0;
    assert(unit_rows(out@) =~= seq![]);
    while i < names.len()
        invariant
            i <= names@.len(),
            unit_rows(out@) == stale_names(names@.take(i as int), cidrs@),
        decreases names@.len() - i,
    {
        assert(names@.take(i + 1).drop_last() =~= names@.take(i as int));
        if is_stale_route(names[i].as_slice(), cidrs) {
            let ghost before: Seq<Seq<u16>> = unit_rows(out@);
            let name: Vec<u16> = null_terminated(names[i].as_slice());
            out.push(name);
            assert(unit_rows(out@) =~= before.push(name@));
        }
        i = i + 1;
    }
    assert(names@.take(names@.len() as int) =~= names@);
    out
}

/// A persistent route is named by its destination, a comma and the rest. It is removed if and only
/// if its destination is the network address of one of the subnets.
pub proof fn law_persistent_route_removed_iff_network(ip: Ipv4, rest: Seq<char>, cidrs: Seq<Cidr>)
    ensures
        is_stale(utf16(ipv4_text(ip) + seq![','] + rest), cidrs) <==> is_network(ip, cidrs),
{
    let name: Seq<char> = ipv4_text(ip) + seq![','] + rest;
    law_utf16_round_trip(name);
    lemma_address_chars(ip);
    assert forall|i: int| 0 <= i < ipv4_text(ip).len() implies ipv4_text(ip)[i] != ',' by {
        assert(is_address_char(ipv4_text(ip)[i]));
    }
    lemma_split_once_char(ipv4_text(ip), ',', rest);
    law_ipv4_round_trip(ip);
}

/// The route of every subnet, and no other: the `i`th leads to the `i`th subnet, through the gateway
/// and interface that were given, with metric one.
pub proof fn law_each_subnet_gets_its_route(
    gateway_ip: Ipv4,
    if_index: u32,
    cidrs: Seq<Cidr>,
    i: int,
)
    requires
        0 <= i < cidrs.len(),
    ensures
        ({
            let rows: Seq<RouteRow> = routes_to(gateway_ip, if_index, cidrs);
            &&& rows.len() == cidrs.len()
            &&& rows[i].destination == cidrs[i]
            &&& rows[i].next_hop == gateway_ip
            &&& rows[i].if_index == if_index
            &&& rows[i].metric == 1
        }),
{
}

/// The positions whose code is one of two.
pub open spec fn positions_of(codes: Seq<u32>, x: u32, y: u32) -> Set<int> {
    Set::new(|i: int| 0 <= i < codes.len() && (codes[i] == x || codes[i] == y))
}

proof fn lemma_positions_grow(codes: Seq<u32>, x: u32, y: u32)
    requires
        codes.len() > 0,
        positions_of(codes.drop_last(), x, y).finite(),
    ensures
        positions_of(codes, x, y).finite(),
        positions_of(codes, x, y).len() == positions_of(codes.drop_last(), x, y).len() + (if codes.last()
            == x || codes.last() == y {
            1int
        } else {
            0int
        }),
{
    let init: Set<int> = positions_of(codes.drop_last(), x, y);
    let n: int = codes.len() - 1;
    if codes.last() == x || codes.last() == y {
        assert(positions_of(codes, x, y) =~= init.insert(n));
    } else {
        assert(positions_of(codes, x, y) =~= init);
    }
}

/// What is counted for writes is the number of positions with code 0 or 5010, and for removals the
/// number of positions with code 0.
pub proof fn law_counts_are_of_positions(codes: Seq<u32>)
    ensures
        positions_of(codes, 0, 5010).finite(),
        positions_of(codes, 0, 0).finite(),
        count_done(codes, true) == positions_of(codes, 0, 5010).len(),
        count_done(codes, false) == positions_of(codes, 0, 0).len(),
    decreases codes.len(),
{
    if codes.len() == 0 {
        assert(positions_of(codes, 0, 5010) =~= Set::empty());
        assert(positions_of(codes, 0, 0) =~= Set::empty());
    } else {
        law_counts_are_of_positions(codes.drop_last());
        lemma_positions_grow(codes, 0, 5010);
        lemma_positions_grow(codes, 0, 0);
    }
}

/// Counting goes code by code: a write counts if and only if it came back with 0 or 5010, a removal
/// if and only if it came back with 0. Where no code is one of them, nothing is counted.
pub proof fn law_counts_go_code_by_code(codes: Seq<u32>, code: u32)
    ensures
        code == 0 || code == 5010 ==> count_done(codes.push(code), true) == count_done(codes, true)
            + 1,
        code != 0 && code != 5010 ==> count_done(codes.push(code), true) == count_done(codes, true),
        code == 0 ==> count_done(codes.push(code), false) == count_done(codes, false) + 1,
        code != 0 ==> count_done(codes.push(code), false) == count_done(codes, false),
        (forall|i: int| 0 <= i < codes.len() ==> #[trigger] codes[i] != 0 && codes[i] != 5010)
            ==> count_done(codes, true) == 0,
        (forall|i: int| 0 <= i < codes.len() ==> #[trigger] codes[i] != 0) ==> count_done(
            codes,
            false,
        ) == 0,
{
    assert(codes.push(code).drop_last() =~= codes);
    law_counts_are_of_positions(codes);
    if forall|i: int| 0 <= i < codes.len() ==> #[trigger] codes[i] != 0 && codes[i] != 5010 {
        assert(positions_of(codes, 0, 5010) =~= Set::empty());
    }
    if forall|i: int| 0 <= i < codes.len() ==> #[trigger] codes[i] != 0 {
        assert(positions_of(codes, 0, 0) =~= Set::empty());
    }
}

/// The subnet that is looked up is 2.57.3.0/24, and a lookup shows the route if and only if it came
/// back with 0 and found the gateway and the interface that are asked about.
pub proof fn law_lookup_shows_route_iff_same(
    code: u32,
    next_hop: Ipv4,
    found_index: u32,
    gateway_ip: Ipv4,
    if_index: u32,
)
    ensures
        sample_cidr().ip == (Ipv4 { a: 2, b: 57, c: 3, d: 0 }),
        sample_cidr().prefix_len == 24,
        shows_route(code, next_hop, found_index, gateway_ip, if_index) <==> code == 0 && next_hop.a
            == gateway_ip.a && next_hop.b == gateway_ip.b && next_hop.c == gateway_ip.c
            && next_hop.d == gateway_ip.d && found_index == if_index,
{
}

/// Rows are picked for removal one by one and in order: a row is picked if and only if a subnet has
/// its network address and its prefix length.
pub proof fn law_rows_are_picked_one_by_one(
    first: Seq<RouteRow>,
    row: RouteRow,
    second: Seq<RouteRow>,
    cidrs: Seq<Cidr>,
)
    ensures
        subnet_rows(first + second, cidrs) == subnet_rows(first, cidrs) + subnet_rows(
            second,
            cidrs,
        ),
        (exists|i: int|
            0 <= i < cidrs.len() && (#[trigger] cidrs[i]).ip == row.destination.ip
                && cidrs[i].prefix_len == row.destination.prefix_len) ==> subnet_rows(
            seq![row],
            cidrs,
        ) == seq![row],
        (forall|i: int|
            0 <= i < cidrs.len() ==> (#[trigger] cidrs[i]).ip != row.destination.ip
                || cidrs[i].prefix_len != row.destination.prefix_len) ==> subnet_rows(
            seq![row],
            cidrs,
        ) == Seq::<RouteRow>::empty(),
{
    Seq::filter_distributes_over_add(first, second, leads_to(cidrs));
    reveal(Seq::filter);
    let one: Seq<RouteRow> = seq![row];
    assert(one.drop_last() =~= seq![]);
    assert(one.drop_last().filter(leads_to(cidrs)) =~= seq![]);
    if exists|i: int|
        0 <= i < cidrs.len() && (#[trigger] cidrs[i]).ip == row.destination.ip
            && cidrs[i].prefix_len == row.destination.prefix_len {
        let i: int = choose|i: int|
            0 <= i < cidrs.len() && (#[trigger] cidrs[i]).ip == row.destination.ip
                && cidrs[i].prefix_len == row.destination.prefix_len;
        assert(cidrs[i] == row.destination);
        assert(cidrs.contains(row.destination));
        assert(subnet_rows(one, cidrs) =~= one);
    }
    if forall|i: int|
        0 <= i < cidrs.len() ==> (#[trigger] cidrs[i]).ip != row.destination.ip
            || cidrs[i].prefix_len != row.destination.prefix_len {
        if cidrs.contains(row.destination) {
            let i: int = choose|i: int| 0 <= i < cidrs.len() && cidrs[i] == row.destination;
            assert(cidrs[i].ip == row.destination.ip);
        }
        assert(subnet_rows(one, cidrs) =~= seq![]);
    }
}

/// The name of a persistent route is stale if and only if it reads as the network address of one of
/// the subnets, a comma and anything.
pub proof fn law_stale_iff_names_network(name: Seq<u16>, cidrs: Seq<Cidr>)
    ensures
        is_stale(name, cidrs) <==> exists|i: int, rest: Seq<char>|
            0 <= i < cidrs.len() && decode_utf16(name) == #[trigger] (ipv4_text(cidrs[i].ip)
                + seq![','] + rest),
{
    let text: Seq<char> = decode_utf16(name);
    if is_stale(name, cidrs) {
        lemma_split_once_char_parts(text, ',');
        let (first, rest) = split_once(text, seq![','])->0;
        let ip: Ipv4 = parse_ipv4(first)->0;
        law_ipv4_read_iff_dotted(first, ip);
        let i: int = choose|i: int| 0 <= i < cidrs.len() && (#[trigger] cidrs[i]).ip == ip;
        assert(text == ipv4_text(cidrs[i].ip) + seq![','] + rest);
    }
    if exists|i: int, rest: Seq<char>|
        0 <= i < cidrs.len() && text == #[trigger] (ipv4_text(cidrs[i].ip) + seq![','] + rest) {
        let (i, rest) = choose|i: int, rest: Seq<char>|
            0 <= i < cidrs.len() && text == #[trigger] (ipv4_text(cidrs[i].ip) + seq![','] + rest);
        let ip: Ipv4 = cidrs[i].ip;
        lemma_address_chars(ip);
        assert forall|k: int| 0 <= k < ipv4_text(ip).len() implies ipv4_text(ip)[k] != ',' by {
            assert(is_address_char(ipv4_text(ip)[k]));
        }
        lemma_split_once_char(ipv4_text(ip), ',', rest);
        law_ipv4_round_trip(ip);
    }
}

/// Names are picked for removal one by one and in order, and each as it stands with one null unit
/// behind it.
pub proof fn law_stale_names_are_picked_one_by_one(
    first: Seq<Vec<u16>>,
    name: Vec<u16>,
    cidrs: Seq<Cidr>,
)
    ensures
        is_stale(name@, cidrs) ==> stale_names(first.push(name), cidrs) == stale_names(first, cidrs)
            + seq![name@ + seq![0u16]],
        !is_stale(name@, cidrs) ==> stale_names(first.push(name), cidrs) == stale_names(
            first,
            cidrs,
        ),
        stale_names(Seq::<Vec<u16>>::empty(), cidrs) == Seq::<Seq<u16>>::empty(),
{
    assert(first.push(name).drop_last() =~= first);
    assert(name@ + seq![0u16] =~= name@.push(0));
    assert(stale_names(first, cidrs).push(name@.push(0)) =~= stale_names(first, cidrs) + seq![
        name@.push(0),
    ]);
}

} // verus!
