use iran_route::adapter::{
    accepts_adapter, accepts_default_route, default_routes, detect_physical_interface, AdapterInfo,
    AdapterType, ForwardRow,
};
use iran_route::ipv4::Ipv4;
use iran_route::order::stable_order;

fn ip(a: u8, b: u8, c: u8, d: u8) -> Ipv4 {
    Ipv4 { a, b, c, d }
}

fn row(if_index: u32, prefix_len: u8, next_hop: Ipv4, metric: u32) -> ForwardRow {
    ForwardRow { if_index, prefix_len, next_hop, metric }
}

fn adapter(if_index: u32, if_type: u32, desc: &str, name: &str) -> AdapterInfo {
    AdapterInfo {
        if_index,
        if_type,
        oper_status: 1,
        description: Some(desc.encode_utf16().collect()),
        friendly_name: Some(name.encode_utf16().collect()),
        unicast: Some(ip(192, 168, 0, 170)),
    }
}

#[test]
fn orders_stably() {
    assert_eq!(stable_order(&[3, 1, 2, 1]), vec![1, 3, 2, 0]);
    assert_eq!(stable_order(&[]), Vec::<usize>::new());
    assert_eq!(stable_order(&[5, 5, 5]), vec![0, 1, 2]);
}

#[test]
fn accepts_default_routes_through_gateways() {
    assert!(accepts_default_route(&row(1, 0, ip(192, 168, 0, 1), 5)));
    assert!(accepts_default_route(&row(1, 0, ip(169, 253, 0, 1), 5)));
    assert!(!accepts_default_route(&row(1, 24, ip(192, 168, 0, 1), 5)));
    assert!(!accepts_default_route(&row(1, 0, ip(0, 0, 0, 0), 5)));
    assert!(accepts_default_route(&row(1, 0, ip(0, 0, 0, 1), 5)));
    assert!(!accepts_default_route(&row(1, 0, ip(127, 0, 0, 1), 5)));
    assert!(!accepts_default_route(&row(1, 0, ip(169, 254, 9, 9), 5)));
}

#[test]
fn rejects_adapters_that_are_not_physical() {
    assert!(accepts_adapter(&adapter(1, 6, "Realtek PCIe", "Ethernet")));
    assert!(accepts_adapter(&adapter(1, 71, "Intel AX200", "Wi-Fi")));
    assert!(!accepts_adapter(&adapter(1, 131, "Realtek PCIe", "Ethernet")));
    for word in [
        "Hyper-V", "Virtual", "vEthernet", "TAP", "Wintun", "TunnelBear", "NordVPN", "NordLynx",
        "Windscribe",
    ] {
        let told = format!("My {}-Adapter V9", word);
        assert!(!accepts_adapter(&adapter(1, 6, &told, "Ethernet")));
    }
    for word in ["vEthernet", "TAP", "Wintun", "TunnelBear", "Nord", "Windscribe"] {
        let told = format!("My {}-Adapter V9", word);
        assert!(!accepts_adapter(&adapter(1, 6, "Realtek PCIe", &told)));
    }
    assert!(!accepts_adapter(&adapter(1, 6, "Windscribe TAP Nord", "Virtual Hyper-V")));
    assert!(accepts_adapter(&adapter(1, 6, "tap wintun virtual", "windscribe")));
    let mut down = adapter(1, 6, "Realtek PCIe", "Ethernet");
    down.oper_status = 2;
    assert!(!accepts_adapter(&down));
}

#[test]
fn default_routes_come_by_metric() {
    let rows = vec![
        row(1, 0, ip(10, 0, 0, 1), 50),
        row(2, 24, ip(10, 0, 0, 2), 1),
        row(3, 0, ip(10, 0, 0, 3), 20),
        row(4, 0, ip(0, 0, 0, 0), 1),
        row(5, 0, ip(10, 0, 0, 5), 50),
        row(6, 0, ip(10, 0, 0, 6), 20),
    ];
    assert_eq!(default_routes(&rows), vec![2, 5, 0, 4]);
}

#[test]
fn detects_the_physical_adapter_behind_the_tunnel() {
    let rows = vec![
        row(30, 0, ip(10, 255, 255, 1), 0),
        row(20, 0, ip(192, 168, 1, 1), 35),
        row(10, 0, ip(192, 168, 0, 1), 25),
    ];
    let ads = vec![
        adapter(30, 6, "Wintun Userspace Tunnel", "Windscribe"),
        adapter(20, 71, "Intel AX200", "Wi-Fi"),
        adapter(10, 6, "Realtek PCIe", "Ethernet"),
    ];
    let p = detect_physical_interface(Some(&rows), Some(&ads)).unwrap();
    assert_eq!(p.gateway_ip, ip(192, 168, 0, 1));
    assert_eq!(p.gateway_str, "192.168.0.1");
    assert_eq!(p.interface_ip_str, "192.168.0.170");
    assert_eq!(p.if_index, 10);
    assert_eq!(p.metric, 25);
    assert_eq!(p.name, "Ethernet");
    assert_eq!(p.adapter_type, AdapterType::Ethernet);
}

#[test]
fn a_tunnel_with_an_ordinary_name_is_not_detected() {
    let rows = vec![row(15, 0, ip(10, 8, 0, 1), 5)];
    let mut tap = adapter(15, 6, "TAP-Windows Adapter V9", "Local Area Connection");
    tap.unicast = Some(ip(10, 8, 0, 2));
    assert!(detect_physical_interface(Some(&rows), Some(&[tap])).is_none());
}

#[test]
fn a_physical_adapter_is_not_taken_for_a_tunnel() {
    let rows = vec![row(15, 0, ip(192, 168, 0, 1), 5)];
    for (desc, name) in [
        ("Nordic Ethernet", "Ethernet"),
        ("Realtek PCIe", "Virtual machines uplink"),
        ("Realtek PCIe", "Hyper-V uplink"),
    ] {
        let found = detect_physical_interface(Some(&rows), Some(&[adapter(15, 6, desc, name)]));
        assert_eq!(found.unwrap().name, name);
    }
}

#[test]
fn equal_metrics_fall_to_the_first_row() {
    let rows = vec![row(20, 0, ip(192, 168, 1, 1), 25), row(10, 0, ip(192, 168, 0, 1), 25)];
    let ads = vec![adapter(10, 6, "Realtek PCIe", "Ethernet"), adapter(20, 71, "Intel", "Wi-Fi")];
    let p = detect_physical_interface(Some(&rows), Some(&ads)).unwrap();
    assert_eq!((p.if_index, p.adapter_type), (20, AdapterType::WiFi));
}

#[test]
fn link_local_and_missing_facts_are_left_blank() {
    let rows = vec![row(10, 0, ip(192, 168, 0, 1), 25)];
    let mut ad = adapter(10, 6, "Realtek PCIe", "Ethernet");
    ad.unicast = Some(ip(169, 254, 1, 1));
    ad.friendly_name = None;
    ad.description = None;
    let p = detect_physical_interface(Some(&rows), Some(&[ad])).unwrap();
    assert_eq!(p.interface_ip_str, "");
    assert_eq!(p.name, "");
}

#[test]
fn nothing_is_detected_without_a_candidate() {
    let rows = vec![row(10, 0, ip(192, 168, 0, 1), 25)];
    let ads = vec![adapter(11, 6, "Realtek PCIe", "Ethernet")];
    assert!(detect_physical_interface(Some(&rows), Some(&ads)).is_none());
    assert!(detect_physical_interface(None, Some(&ads)).is_none());
    assert!(detect_physical_interface(Some(&rows), None).is_none());
}
