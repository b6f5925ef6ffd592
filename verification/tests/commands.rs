use iran_route::adapter::{AdapterType, PhysicalAdapter};
use iran_route::cidr::load_cidrs;
use iran_route::cli::{parse_args, Command, Invocation};
use iran_route::enable::{
    try_acquire, EnableEvent, EnableRequest, EnableRun, EnableStep, GuardOutcome, Stage,
};
use iran_route::ipv4::Ipv4;
use iran_route::messages::{disabled_log_message, removed_lines, removing_lines, status_lines};
use iran_route::route::{is_route_active, plan_routes};

const GATEWAY: Ipv4 = Ipv4 { a: 192, b: 168, c: 0, d: 1 };

fn ethernet() -> PhysicalAdapter {
    PhysicalAdapter {
        gateway_ip: GATEWAY,
        gateway_str: "192.168.0.1".to_string(),
        interface_ip_str: "192.168.0.170".to_string(),
        if_index: 10,
        metric: 25,
        name: "Ethernet".to_string(),
        adapter_type: AdapterType::Ethernet,
    }
}

fn args(list: &[&str]) -> Invocation {
    let all: Vec<String> = list.iter().map(|s| s.to_string()).collect();
    parse_args(&all)
}

fn quiet(step: &EnableStep) -> bool {
    step.log.is_none() && step.warn.is_none() && step.say.is_empty()
}

#[test]
fn actions_name_commands() {
    for (word, command) in [
        ("enable", Command::Enable),
        ("disable", Command::Disable),
        ("status", Command::Status),
        ("test", Command::Test),
        ("log", Command::Log),
        ("Enable", Command::Help),
        ("--silent", Command::Help),
    ] {
        assert_eq!(args(&["iran-route", word]).command, command);
    }
    assert_eq!(args(&["iran-route"]).command, Command::Status);
    assert_eq!(args(&[]).command, Command::Status);
}

#[test]
fn flags_stand_anywhere() {
    assert_eq!(
        args(&["iran-route", "enable", "--force", "--silent"]),
        Invocation { command: Command::Enable, silent: true, force: true }
    );
    assert_eq!(
        args(&["iran-route", "enable"]),
        Invocation { command: Command::Enable, silent: false, force: false }
    );
    assert_eq!(args(&["iran-route", "disable", "-V", "-h"]).command, Command::Help);
    assert_eq!(args(&["iran-route", "disable", "--help"]).command, Command::Help);
    assert_eq!(args(&["iran-route", "--version"]).command, Command::Version);
    assert_eq!(args(&["iran-route", "enable", "-V"]).command, Command::Version);
}

#[test]
fn guard_is_judged_by_handle_and_error() {
    assert_eq!(try_acquire(true, 0), GuardOutcome::Unavailable);
    assert_eq!(try_acquire(true, 183), GuardOutcome::Unavailable);
    assert_eq!(try_acquire(false, 183), GuardOutcome::Taken);
    assert_eq!(try_acquire(false, 0), GuardOutcome::Held);
}

#[test]
fn silent_run_without_the_guard_does_nothing() {
    let (mut run, first) = EnableRun::start(true, false, 1740);
    assert_eq!(first, EnableRequest::AcquireGuard);
    let step = run.step(EnableEvent::Guard { outcome: GuardOutcome::Taken });
    assert_eq!(step.request, EnableRequest::Stop);
    assert!(quiet(&step));
    assert_eq!(run.stage, Stage::Finished);
}

#[test]
fn silent_run_rewrites_routes_and_only_logs() {
    let (mut run, _) = EnableRun::start(true, false, 1740);
    let step = run.step(EnableEvent::Guard { outcome: GuardOutcome::Held });
    assert_eq!(step.request, EnableRequest::FindGateway { settle: true });
    let step = run.step(EnableEvent::Gateway { found: Some(ethernet()) });
    assert_eq!(step.request, EnableRequest::EnsurePolicy);
    let step = run.step(EnableEvent::PolicyEnsured);
    assert_eq!(step.request, EnableRequest::QuerySample { gateway_ip: GATEWAY, if_index: 10 });
    let step = run.step(EnableEvent::Sample { active: false });
    assert_eq!(step.request, EnableRequest::RewriteRoutes { gateway_ip: GATEWAY, if_index: 10 });
    assert!(quiet(&step));
    let step = run.step(EnableEvent::RoutesWritten { applied: 1740, elapsed: "7.00ms".to_string() });
    assert_eq!(step.request, EnableRequest::Stop);
    assert_eq!(
        step.log.unwrap(),
        "MIGRATION: 1740 routes applied to 192.168.0.1 (Ethernet if 10) in 7.00ms"
    );
    assert!(step.say.is_empty() && step.warn.is_none());
}

#[test]
fn active_routes_are_left_alone() {
    let (mut run, first) = EnableRun::start(false, false, 1740);
    assert_eq!(first, EnableRequest::FindGateway { settle: false });
    run.step(EnableEvent::Gateway { found: Some(ethernet()) });
    run.step(EnableEvent::PolicyEnsured);
    let step = run.step(EnableEvent::Sample { active: true });
    assert_eq!(step.request, EnableRequest::Stop);
    assert_eq!(step.log.unwrap(), "SYNC_OK: 1740 routes verified on 192.168.0.1 (Ethernet if 10)");
    assert_eq!(
        step.say,
        vec!["\x1b[1;32m[+]\x1b[0m Iran routes already active and pointed to 192.168.0.1 on interface 10. Nothing to do."]
    );
}

#[test]
fn forced_run_does_not_look_first() {
    let (mut run, _) = EnableRun::start(false, true, 2);
    run.step(EnableEvent::Gateway { found: Some(ethernet()) });
    let step = run.step(EnableEvent::PolicyEnsured);
    assert_eq!(step.request, EnableRequest::RewriteRoutes { gateway_ip: GATEWAY, if_index: 10 });
    assert_eq!(
        step.say,
        vec![
            "[*] Detected physical gateway: \x1b[1;36m192.168.0.1\x1b[0m (Adapter: Ethernet, Index: 10, Metric: 25)",
            "[*] Applying 2 Iranian CIDR routes natively...",
        ]
    );
    let step = run.step(EnableEvent::RoutesWritten { applied: 2, elapsed: "1.50µs".to_string() });
    assert_eq!(step.request, EnableRequest::Benchmark);
    assert_eq!(
        step.say,
        vec!["\x1b[1;32m[+]\x1b[0m Applied 2 routes directly to Windows kernel table in \x1b[1;36m1.50µs\x1b[0m."]
    );
}

#[test]
fn missing_gateway_is_told_and_logged() {
    let (mut run, _) = EnableRun::start(false, false, 1740);
    let step = run.step(EnableEvent::Gateway { found: None });
    assert_eq!(step.request, EnableRequest::Stop);
    assert_eq!(
        step.log.unwrap(),
        "NO_UPLINK: Physical gateway not detected after DHCP settle window."
    );
    assert_eq!(
        step.warn.unwrap(),
        "\x1b[1;31m[-] Could not detect active physical gateway. Network adapter may still be initializing.\x1b[0m"
    );
}

#[test]
fn an_answer_out_of_turn_ends_the_run() {
    let (mut run, _) = EnableRun::start(false, false, 1740);
    let step = run.step(EnableEvent::Sample { active: true });
    assert_eq!(step.request, EnableRequest::Stop);
    assert!(quiet(&step));
}

#[test]
fn removal_is_told_unless_silent() {
    assert_eq!(
        removing_lines(false, 1740),
        vec!["[*] Removing 1740 Iranian CIDR routes from live routing table..."]
    );
    assert_eq!(
        removed_lines(false, 1739, "5.00ms"),
        vec![
            "\x1b[1;32m[+]\x1b[0m Removed 1739 routes in 5.00ms.",
            "\x1b[1;32m[+]\x1b[0m Removed DNS Split-Tunnel (NRPT) policy.",
        ]
    );
    assert!(removing_lines(true, 1740).is_empty());
    assert!(removed_lines(true, 1740, "5.00ms").is_empty());
    assert_eq!(disabled_log_message(1740), "DISABLED: 1740 routes purged, NRPT policy removed.");
}

#[test]
fn status_tells_adapter_routes_and_policy() {
    let ad = ethernet();
    assert_eq!(
        status_lines(Some(&ad), true, 1740, true, "78.157.42.100;78.157.42.101"),
        vec![
            "\x1b[1;36mIran Route Status (Native Rust Engine 1.1.0):\x1b[0m",
            "  Physical Adapter:         Ethernet (Ethernet, Index: 10)",
            "  Physical Gateway:         192.168.0.1 (Local IP: 192.168.0.170)",
            "  Live routes active:       \x1b[1;32mYES\x1b[0m (1740 subnets)",
            "  DNS Split-Tunnel (NRPT):  \x1b[1;32mACTIVE\x1b[0m (78.157.42.100;78.157.42.101)",
        ]
    );
    assert_eq!(
        status_lines(None, false, 1740, false, ""),
        vec![
            "\x1b[1;36mIran Route Status (Native Rust Engine 1.1.0):\x1b[0m",
            "  Physical Adapter:         None (Unknown, Index: ?)",
            "  Physical Gateway:         Not detected (Local IP: ?)",
            "  Live routes active:       \x1b[1;31mNO\x1b[0m (1740 subnets)",
            "  DNS Split-Tunnel (NRPT):  \x1b[1;31mOFF\x1b[0m (None)",
        ]
    );
}

#[test]
fn a_later_run_follows_the_gateway() {
    let cidrs = load_cidrs("2.57.3.0/24\n");
    let written = plan_routes(GATEWAY, 10, &cidrs)[0];
    let moved = Ipv4 { a: 192, b: 168, c: 43, d: 1 };
    for (gateway_ip, if_index, rewrites) in [(GATEWAY, 10, false), (moved, 20, true), (GATEWAY, 20, true)] {
        let mut found = ethernet();
        found.gateway_ip = gateway_ip;
        found.if_index = if_index;
        let (mut run, _) = EnableRun::start(false, false, cidrs.len());
        run.step(EnableEvent::Gateway { found: Some(found) });
        run.step(EnableEvent::PolicyEnsured);
        let active = is_route_active(0, written.next_hop, written.if_index, gateway_ip, if_index);
        let step = run.step(EnableEvent::Sample { active });
        let want = if rewrites {
            EnableRequest::RewriteRoutes { gateway_ip, if_index }
        } else {
            EnableRequest::Stop
        };
        assert_eq!(step.request, want);
    }
}
