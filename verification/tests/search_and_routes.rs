use iran_route::cidr::{load_cidrs, Cidr};
use iran_route::ipv4::Ipv4;
use iran_route::route::{
    count_applied, count_deleted, is_route_active, plan_routes, purge_stale_persistent_routes,
    rows_to_remove, sample_net, RouteRow,
};
use iran_route::search::{GatewaySearch, SearchStep};

const GATEWAY: Ipv4 = Ipv4 { a: 192, b: 168, c: 0, d: 1 };
const OTHER: Ipv4 = Ipv4 { a: 192, b: 168, c: 1, d: 1 };

#[test]
fn settling_search_gives_up_after_three_seconds() {
    let mut s = GatewaySearch::new(true);
    let mut waited = s.initial_delay_ms();
    let mut probes = 0;
    loop {
        probes += 1;
        match s.after_probe(false) {
            SearchStep::Retry { delay_ms } => waited += delay_ms,
            SearchStep::GiveUp => break,
            SearchStep::Found => unreachable!(),
        }
    }
    assert_eq!((probes, waited), (5, 3000));
}

#[test]
fn other_search_does_not_wait() {
    let mut s = GatewaySearch::new(false);
    assert_eq!(s.initial_delay_ms(), 0);
    assert_eq!(s.after_probe(false), SearchStep::Retry { delay_ms: 0 });
    assert_eq!(s.after_probe(true), SearchStep::Found);
}

#[test]
fn plans_one_route_for_each_subnet() {
    let cidrs = load_cidrs("2.57.3.0/24\n185.167.72.0/22\n");
    let rows = plan_routes(GATEWAY, 10, &cidrs);
    assert_eq!(
        rows,
        vec![
            RouteRow { destination: cidrs[0], next_hop: GATEWAY, if_index: 10, metric: 1 },
            RouteRow { destination: cidrs[1], next_hop: GATEWAY, if_index: 10, metric: 1 },
        ]
    );
}

#[test]
fn counts_what_the_system_did() {
    let codes = [0u32, 5010, 87, 0];
    assert_eq!(count_applied(&codes), 3);
    assert_eq!(count_deleted(&codes), 2);
    assert_eq!(count_applied(&[]), 0);
}

#[test]
fn sample_route_is_active_through_its_own_gateway() {
    let sample: Cidr = sample_net();
    assert_eq!(sample, load_cidrs("2.57.3.0/24")[0]);
    let row = plan_routes(GATEWAY, 10, &[sample])[0];
    assert!(is_route_active(0, row.next_hop, row.if_index, GATEWAY, 10));
    assert!(!is_route_active(0, row.next_hop, row.if_index, OTHER, 10));
    assert!(!is_route_active(0, row.next_hop, row.if_index, GATEWAY, 11));
    assert!(!is_route_active(1168, row.next_hop, row.if_index, GATEWAY, 10));
}

#[test]
fn purges_persistent_routes_of_the_subnets() {
    let cidrs = load_cidrs("2.57.3.0/24\n185.167.72.0/22\n");
    let names: Vec<Vec<u16>> = [
        "2.57.3.0,255.255.255.0,192.168.0.1,1",
        "10.0.0.0,255.0.0.0,192.168.0.1,1",
        "185.167.72.0,",
        "185.167.72.0",
        "x,2.57.3.0",
        " 2.57.3.0,1",
    ]
    .iter()
    .map(|s| s.encode_utf16().collect())
    .collect();
    let want: Vec<Vec<u16>> = ["2.57.3.0,255.255.255.0,192.168.0.1,1\0", "185.167.72.0,\0"]
        .iter()
        .map(|s| s.encode_utf16().collect())
        .collect();
    assert_eq!(purge_stale_persistent_routes(&names, &cidrs), want);
    assert_eq!(purge_stale_persistent_routes(&names, &[]), Vec::<Vec<u16>>::new());
}

#[test]
fn routes_move_to_the_new_gateway() {
    let cidrs = load_cidrs("2.57.3.0/24\n185.167.72.0/22\n");
    let elsewhere = RouteRow {
        destination: load_cidrs("10.0.0.0/8")[0],
        next_hop: OTHER,
        if_index: 3,
        metric: 40,
    };
    let mut table = vec![elsewhere];
    table.extend(plan_routes(GATEWAY, 10, &cidrs));
    let removed = rows_to_remove(&table, &cidrs);
    assert_eq!(removed, plan_routes(GATEWAY, 10, &cidrs));
    assert_eq!(count_deleted(&vec![0; removed.len()]), cidrs.len());
    table.retain(|row| !removed.contains(row));
    assert_eq!(table, vec![elsewhere]);
    table.extend(plan_routes(OTHER, 20, &cidrs));
    let led: Vec<&RouteRow> =
        table.iter().filter(|row| cidrs.contains(&row.destination)).collect();
    assert_eq!(led.len(), 2);
    assert!(led.iter().all(|row| row.next_hop == OTHER && row.if_index == 20));
}

#[test]
fn rows_are_removed_by_destination_and_prefix() {
    let cidrs = load_cidrs("2.57.3.0/24\n185.167.72.0/22\n");
    let to = |text: &str, next_hop: Ipv4| RouteRow {
        destination: load_cidrs(text)[0],
        next_hop,
        if_index: 7,
        metric: 9,
    };
    let table = vec![
        to("185.167.72.0/22", OTHER),
        to("0.0.0.0/0", GATEWAY),
        to("2.57.3.0/25", GATEWAY),
        to("2.57.3.0/24", GATEWAY),
        to("185.167.72.0/22", GATEWAY),
    ];
    assert_eq!(rows_to_remove(&table, &cidrs), vec![table[0], table[3], table[4]]);
    assert!(rows_to_remove(&table, &[]).is_empty());
    assert!(rows_to_remove(&[], &cidrs).is_empty());
}
