//! What the commands print and log.
use crate::adapter::{AdapterType, AdapterView, PhysicalAdapter};
use crate::decimal::{decimal, decimal_text};
use crate::text::texts;
use vstd::prelude::*;

verus! {

/// What is logged where no gateway was found.
pub const NO_UPLINK_LOG: &'static str =
    "NO_UPLINK: Physical gateway not detected after DHCP settle window.";

/// What is printed where no gateway was found.
pub const NO_UPLINK_WARNING: &'static str =
    "\x1b[1;31m[-] Could not detect active physical gateway. Network adapter may still be initializing.\x1b[0m";

/// What is logged where the routes are in place.
pub open spec fn sync_ok_text(ad: AdapterView) -> Seq<char> {
    "SYNC_OK: 1740 routes verified on "@ + ad.gateway_str + " ("@ + ad.name + " if "@ + decimal(
        ad.if_index as nat,
    ) + ")"@
}

/// What is printed where the routes are in place.
pub open spec fn already_active_text(ad: AdapterView) -> Seq<char> {
    "\x1b[1;32m[+]\x1b[0m Iran routes already active and pointed to "@ + ad.gateway_str
        + " on interface "@ + decimal(ad.if_index as nat) + ". Nothing to do."@
}

/// What is printed of the gateway before routes are written.
pub open spec fn detected_text(ad: AdapterView) -> Seq<char> {
    "[*] Detected physical gateway: \x1b[1;36m"@ + ad.gateway_str + "\x1b[0m (Adapter: "@ + ad.name
        + ", Index: "@ + decimal(ad.if_index as nat) + ", Metric: "@ + decimal(ad.metric as nat)
        + ")"@
}

/// What is printed of the subnets before routes are written.
pub open spec fn applying_text(subnets: nat) -> Seq<char> {
    "[*] Applying "@ + decimal(subnets) + " Iranian CIDR routes natively..."@
}

/// What is logged once routes were written.
pub open spec fn migration_text(applied: nat, ad: AdapterView, elapsed: Seq<char>) -> Seq<char> {
    "MIGRATION: "@ + decimal(applied) + " routes applied to "@ + ad.gateway_str + " ("@ + ad.name
        + " if "@ + decimal(ad.if_index as nat) + ") in "@ + elapsed
}

/// What is printed once routes were written.
pub open spec fn applied_text(applied: nat, elapsed: Seq<char>) -> Seq<char> {
    "\x1b[1;32m[+]\x1b[0m Applied "@ + decimal(applied)
        + " routes directly to Windows kernel table in \x1b[1;36m"@ + elapsed + "\x1b[0m."@
}

/// Writes what is logged where the routes are in place.
pub fn sync_ok_message(ad: &PhysicalAdapter) -> (r: String)
    ensures
        r@ == sync_ok_text(ad@),
{
    let mut out: String = "SYNC_OK: 1740 routes verified on ".to_owned();
    out.append(ad.gateway_str.as_str());
    out.append(" (");
    out.append(ad.name.as_str());
    out.append(" if ");
    out.append(decimal_text(ad.if_index as u128).as_str());
    out.append(")");
    assert(out@ =~= sync_ok_text(ad@));
    out
}

/// Writes what is printed where the routes are in place.
pub fn already_active_message(ad: &PhysicalAdapter) -> (r: String)
    ensures
        r@ == already_active_text(ad@),
{
    let mut out: String =
        "\x1b[1;32m[+]\x1b[0m Iran routes already active and pointed to ".to_owned();
    out.append(ad.gateway_str.as_str());
    out.append(" on interface ");
    out.append(decimal_text(ad.if_index as u128).as_str());
    out.append(". Nothing to do.");
    assert(out@ =~= already_active_text(ad@));
    out
}

/// Writes what is printed of the gateway before routes are written.
pub fn detected_message(ad: &PhysicalAdapter) -> (r: String)
    ensures
        r@ == detected_text(ad@),
{
    let mut out: String = "[*] Detected physical gateway: \x1b[1;36m".to_owned();
    out.append(ad.gateway_str.as_str());
    out.append("\x1b[0m (Adapter: ");
    out.append(ad.name.as_str());
    out.append(", Index: ");
    out.append(decimal_text(ad.if_index as u128).as_str());
    out.append(", Metric: ");
    out.append(decimal_text(ad.metric as u128).as_str());
    out.append(")");
    assert(out@ =~= detected_text(ad@));
    out
}

/// Writes what is printed of the subnets before routes are written.
pub fn applying_message(subnets: usize) -> (r: String)
    ensures
        r@ == applying_text(subnets as nat),
{
    let mut out: String = "[*] Applying ".to_owned();
    out.append(decimal_text(subnets as u128).as_str());
    out.append(" Iranian CIDR routes natively...");
    assert(out@ =~= applying_text(subnets as nat));
    out
}

/// Writes what is logged once routes were written.
pub fn migration_message(applied: usize, ad: &PhysicalAdapter, elapsed: &str) -> (r: String)
    ensures
        r@ == migration_text(applied as nat, ad@, elapsed@),
{
    let mut out: String = "MIGRATION: ".to_owned();
    out.append(decimal_text(applied as u128).as_str());
    out.append(" routes applied to ");
    out.append(ad.gateway_str.as_str());
    out.append(" (");
    out.append(ad.name.as_str());
    out.append(" if ");
    out.append(decimal_text(ad.if_index as u128).as_str());
    out.append(") in ");
    out.append(elapsed);
    assert(out@ =~= migration_text(applied as nat, ad@, elapsed@));
    out
}

/// Writes what is printed once routes were written.
pub fn applied_message(applied: usize, elapsed: &str) -> (r: String)
    ensures
        r@ == applied_text(applied as nat, elapsed@),
{
    let mut out: String = "\x1b[1;32m[+]\x1b[0m Applied ".to_owned();
    out.append(decimal_text(applied as u128).as_str());
    out.append(" routes directly to Windows kernel table in \x1b[1;36m");
    out.append(elapsed);
    out.append("\x1b[0m.");
    assert(out@ =~= applied_text(applied as nat, elapsed@));
    out
}

/// What is logged once routes and policy were removed.
pub open spec fn disabled_log_text(deleted: nat) -> Seq<char> {
    "DISABLED: "@ + decimal(deleted) + " routes purged, NRPT policy removed."@
}

/// What is printed before routes are removed: nothing where the command is silent.
pub open spec fn removing_text(silent: bool, subnets: nat) -> Seq<Seq<char>> {
    if silent {
        seq![]
    } else {
        seq![
            "[*] Removing "@ + decimal(subnets)
                + " Iranian CIDR routes from live routing table..."@,
        ]
    }
}

/// What is printed once routes and policy were removed: nothing where the command is silent.
pub open spec fn removed_text(silent: bool, deleted: nat, elapsed: Seq<char>) -> Seq<Seq<char>> {
    if silent {
        seq![]
    } else {
        seq![
            "\x1b[1;32m[+]\x1b[0m Removed "@ + decimal(deleted) + " routes in "@ + elapsed + "."@,
            "\x1b[1;32m[+]\x1b[0m Removed DNS Split-Tunnel (NRPT) policy."@,
        ]
    }
}

/// What is logged once routes and policy were removed.
pub fn disabled_log_message(deleted: usize) -> (r: String)
    ensures
        r@ == disabled_log_text(deleted as nat),
{
    let mut out: String = "DISABLED: ".to_owned();
    out.append(decimal_text(deleted as u128).as_str());
    out.append(" routes purged, NRPT policy removed.");
    assert(out@ =~= disabled_log_text(deleted as nat));
    out
}

/// What is printed before routes are removed.
pub fn removing_lines(silent: bool, subnets: usize) -> (r: Vec<String>)
    ensures
        texts(r@) == removing_text(silent, subnets as nat),
{
    let mut out: Vec<String> = Vec::new();
    if !silent {
        let mut line: String = "[*] Removing ".to_owned();
        line.append(decimal_text(subnets as u128).as_str());
        line.append(" Iranian CIDR routes from live routing table...");
        out.push(line);
    }
    assert(texts(out@) =~= removing_text(silent, subnets as nat));
    out
}

/// What is printed once routes and policy were removed.
pub fn removed_lines(silent: bool, deleted: usize, elapsed: &str) -> (r: Vec<String>)
    ensures
        texts(r@) == removed_text(silent, deleted as nat, elapsed@),
{
    let mut out: Vec<String> = Vec::new();
    if !silent {
        let mut line: String = "\x1b[1;32m[+]\x1b[0m Removed ".to_owned();
        line.append(decimal_text(deleted as u128).as_str());
        line.append(" routes in ");
        line.append(elapsed);
        line.append(".");
        out.push(line);
        out.push("\x1b[1;32m[+]\x1b[0m Removed DNS Split-Tunnel (NRPT) policy.".to_owned());
    }
    assert(texts(out@) =~= removed_text(silent, deleted as nat, elapsed@));
    out
}

/// The name of an adapter type.
pub open spec fn adapter_type_text(t: AdapterType) -> Seq<char> {
    match t {
        AdapterType::Ethernet => "Ethernet"@,
        AdapterType::WiFi => "Wi-Fi"@,
    }
}

/// The lines of the status report: the adapter, the gateway, the routes and the policy.
pub open spec fn status_text(
    adapter: Option<AdapterView>,
    routes_active: bool,
    subnets: nat,
    policy_active: bool,
    servers: Seq<char>,
) -> Seq<Seq<char>> {
    let (name, kind, index, gateway, local) = match adapter {
        Some(ad) => (
            ad.name,
            adapter_type_text(ad.adapter_type),
            decimal(ad.if_index as nat),
            ad.gateway_str,
            ad.interface_ip_str,
        ),
        None => ("None"@, "Unknown"@, "?"@, "Not detected"@, "?"@),
    };
    let live: Seq<char> = if adapter is Some && routes_active {
        "\x1b[1;32mYES\x1b[0m"@
    } else {
        "\x1b[1;31mNO\x1b[0m"@
    };
    let policy: Seq<char> = if policy_active {
        "\x1b[1;32mACTIVE\x1b[0m"@
    } else {
        "\x1b[1;31mOFF\x1b[0m"@
    };
    let shown: Seq<char> = if policy_active {
        servers
    } else {
        "None"@
    };
    seq![
        "\x1b[1;36mIran Route Status (Native Rust Engine 1.1.0):\x1b[0m"@,
        "  Physical Adapter:         "@ + name + " ("@ + kind + ", Index: "@ + index + ")"@,
        "  Physical Gateway:         "@ + gateway + " (Local IP: "@ + local + ")"@,
        "  Live routes active:       "@ + live + " ("@ + decimal(subnets) + " subnets)"@,
        "  DNS Split-Tunnel (NRPT):  "@ + policy + " ("@ + shown + ")"@,
    ]
}

/// Writes the status report. `routes_active` tells whether the sample subnet is routed through the
/// adapter, and counts for nothing where there is none.
pub fn status_lines(
    adapter: Option<&PhysicalAdapter>,
    routes_active: bool,
    subnets: usize,
    policy_active: bool,
    servers: &str,
) -> (r: Vec<String>)
    ensures
        texts(r@) == status_text(
            (match adapter {
                Some(ad) => Some(ad@),
                None => None,
            }),
            routes_active,
            subnets as nat,
            policy_active,
            servers@,
        ),
{
    let mut first: String = "  Physical Adapter:         ".to_owned();
    let mut second: String = "  Physical Gateway:         ".to_owned();
    match adapter {
        Some(ad) => {
            first.append(ad.name.as_str());
            first.append(" (");
            match ad.adapter_type {
                AdapterType::Ethernet => {
                    first.append("Ethernet");
                },
                AdapterType::WiFi => {
                    first.append("Wi-Fi");
                },
            }
            first.append(", Index: ");
            first.append(decimal_text(ad.if_index as u128).as_str());
            second.append(ad.gateway_str.as_str());
            second.append(" (Local IP: ");
            second.append(ad.interface_ip_str.as_str());
        },
        None => {
            first.append("None");
            first.append(" (");
            first.append("Unknown");
            first.append(", Index: ");
            first.append("?");
            second.append("Not detected");
            second.append(" (Local IP: ");
            second.append("?");
        },
    }
    first.append(")");
    second.append(")");
    let mut third: String = "  Live routes active:       ".to_owned();
    if adapter.is_some() && routes_active {
        third.append("\x1b[1;32mYES\x1b[0m");
    } else {
        third.append("\x1b[1;31mNO\x1b[0m");
    }
    third.append(" (");
    third.append(decimal_text(subnets as u128).as_str());
    third.append(" subnets)");
    let mut fourth: String = "  DNS Split-Tunnel (NRPT):  ".to_owned();
    if policy_active {
        fourth.append("\x1b[1;32mACTIVE\x1b[0m");
        fourth.append(" (");
        fourth.append(servers);
    } else {
        fourth.append("\x1b[1;31mOFF\x1b[0m");
        fourth.append(" (");
        fourth.append("None");
    }
    fourth.append(")");
    let out: Vec<String> = vec![
        "\x1b[1;36mIran Route Status (Native Rust Engine 1.1.0):\x1b[0m".to_owned(),
        first,
        second,
        third,
        fourth,
    ];
    proof {
        let view: Option<AdapterView> = match adapter {
            Some(ad) => Some(ad@),
            None => None,
        };
        let want: Seq<Seq<char>> = status_text(
            view,
            routes_active,
            subnets as nat,
            policy_active,
            servers@,
        );
        assert(first@ =~= want[1]);
        assert(second@ =~= want[2]);
        assert(third@ =~= want[3]);
        assert(fourth@ =~= want[4]);
        assert(texts(out@) =~= want);
    }
    out
}

/// The line on live routes says YES if and only if there is an adapter and the sample subnet is
/// routed through it, and NO otherwise, with the number of subnets behind it. Neither the policy nor
/// anything else of the adapter changes it.
pub proof fn law_status_tells_live_routes(
    adapter: Option<AdapterView>,
    routes_active: bool,
    subnets: nat,
    policy_active: bool,
    servers: Seq<char>,
    other: Option<AdapterView>,
    other_policy: bool,
    other_servers: Seq<char>,
)
    ensures
        ({
            let line: Seq<char> = status_text(adapter, routes_active, subnets, policy_active, servers)[3];
            let yes: Seq<char> = "  Live routes active:       "@ + "\x1b[1;32mYES\x1b[0m"@;
            let no: Seq<char> = "  Live routes active:       "@ + "\x1b[1;31mNO\x1b[0m"@;
            let count: Seq<char> = " ("@ + decimal(subnets) + " subnets)"@;
            &&& adapter is Some && routes_active <==> yes.is_prefix_of(line)
            &&& !(adapter is Some && routes_active) <==> no.is_prefix_of(line)
            &&& line == yes + count || line == no + count
            &&& adapter is Some && other is Some ==> line == status_text(
                other,
                routes_active,
                subnets,
                other_policy,
                other_servers,
            )[3]
            &&& line == status_text(adapter, routes_active, subnets, other_policy, other_servers)[3]
        }),
{
    reveal_strlit("  Live routes active:       ");
    reveal_strlit("\x1b[1;32mYES\x1b[0m");
    reveal_strlit("\x1b[1;31mNO\x1b[0m");
    let line: Seq<char> = status_text(adapter, routes_active, subnets, policy_active, servers)[3];
    let yes: Seq<char> = "  Live routes active:       "@ + "\x1b[1;32mYES\x1b[0m"@;
    let no: Seq<char> = "  Live routes active:       "@ + "\x1b[1;31mNO\x1b[0m"@;
    let count: Seq<char> = " ("@ + decimal(subnets) + " subnets)"@;
    if adapter is Some && routes_active {
        assert(line =~= yes + count);
        assert(line.subrange(0, yes.len() as int) =~= yes);
        assert(line[33] == '2');
        if no.is_prefix_of(line) {
            assert(line.subrange(0, no.len() as int)[33] == no[33]);
        }
    } else {
        assert(line =~= no + count);
        assert(line.subrange(0, no.len() as int) =~= no);
        assert(line[33] == '1');
        if yes.is_prefix_of(line) {
            assert(line.subrange(0, yes.len() as int)[33] == yes[33]);
        }
    }
}

/// The line on the policy says ACTIVE, with the servers behind it, if and only if the policy is in
/// force, and OFF with none otherwise. Neither the adapter nor the routes change it.
pub proof fn law_status_tells_policy(
    adapter: Option<AdapterView>,
    routes_active: bool,
    subnets: nat,
    policy_active: bool,
    servers: Seq<char>,
    other: Option<AdapterView>,
    other_routes: bool,
    other_subnets: nat,
)
    ensures
        ({
            let line: Seq<char> = status_text(adapter, routes_active, subnets, policy_active, servers)[4];
            let on: Seq<char> = "  DNS Split-Tunnel (NRPT):  "@ + "\x1b[1;32mACTIVE\x1b[0m"@;
            let off: Seq<char> = "  DNS Split-Tunnel (NRPT):  "@ + "\x1b[1;31mOFF\x1b[0m"@;
            &&& policy_active <==> on.is_prefix_of(line)
            &&& !policy_active <==> off.is_prefix_of(line)
            &&& policy_active ==> line == on + (" ("@ + servers + ")"@)
            &&& !policy_active ==> line == off + (" ("@ + "None"@ + ")"@)
            &&& line == status_text(other, other_routes, other_subnets, policy_active, servers)[4]
        }),
{
    reveal_strlit("  DNS Split-Tunnel (NRPT):  ");
    reveal_strlit("\x1b[1;32mACTIVE\x1b[0m");
    reveal_strlit("\x1b[1;31mOFF\x1b[0m");
    let line: Seq<char> = status_text(adapter, routes_active, subnets, policy_active, servers)[4];
    let on: Seq<char> = "  DNS Split-Tunnel (NRPT):  "@ + "\x1b[1;32mACTIVE\x1b[0m"@;
    let off: Seq<char> = "  DNS Split-Tunnel (NRPT):  "@ + "\x1b[1;31mOFF\x1b[0m"@;
    if policy_active {
        assert(line =~= on + (" ("@ + servers + ")"@));
        assert(line.subrange(0, on.len() as int) =~= on);
        assert(line[33] == '2');
        if off.is_prefix_of(line) {
            assert(line.subrange(0, off.len() as int)[33] == off[33]);
        }
    } else {
        assert(line =~= off + (" ("@ + "None"@ + ")"@));
        assert(line.subrange(0, off.len() as int) =~= off);
        assert(line[33] == '1');
        if on.is_prefix_of(line) {
            assert(line.subrange(0, on.len() as int)[33] == on[33]);
        }
    }
}

/// The report has five lines. The second and third tell the name, type and index of the adapter, its
/// gateway and its own address; where there is no adapter, that there is none. Routes, subnets and
/// policy do not change them.
pub proof fn law_status_tells_adapter(
    adapter: Option<AdapterView>,
    routes_active: bool,
    subnets: nat,
    policy_active: bool,
    servers: Seq<char>,
)
    ensures
        ({
            let report: Seq<Seq<char>> = status_text(adapter, routes_active, subnets, policy_active, servers);
            &&& report.len() == 5
            &&& report[0] == "\x1b[1;36mIran Route Status (Native Rust Engine 1.1.0):\x1b[0m"@
            &&& adapter matches Some(ad) ==> {
                &&& report[1] == "  Physical Adapter:         "@ + ad.name + " ("@ + (
                if ad.adapter_type == AdapterType::Ethernet {
                    "Ethernet"@
                } else {
                    "Wi-Fi"@
                }) + ", Index: "@ + decimal(ad.if_index as nat) + ")"@
                &&& report[2] == "  Physical Gateway:         "@ + ad.gateway_str + " (Local IP: "@
                    + ad.interface_ip_str + ")"@
            }
            &&& adapter is None ==> {
                &&& report[1] == "  Physical Adapter:         "@ + "None"@ + " ("@ + "Unknown"@
                    + ", Index: "@ + "?"@ + ")"@
                &&& report[2] == "  Physical Gateway:         "@ + "Not detected"@ + " (Local IP: "@
                    + "?"@ + ")"@
            }
        }),
{
}

/// What is logged and printed of an adapter names its gateway first, and then its name and index, or
/// its index alone, and its metric where that is told.
pub proof fn law_messages_name_the_adapter(ad: AdapterView)
    ensures
        sync_ok_text(ad) == "SYNC_OK: 1740 routes verified on "@ + ad.gateway_str + " ("@ + ad.name
            + " if "@ + decimal(ad.if_index as nat) + ")"@,
        already_active_text(ad)
            == "\x1b[1;32m[+]\x1b[0m Iran routes already active and pointed to "@ + ad.gateway_str
            + " on interface "@ + decimal(ad.if_index as nat) + ". Nothing to do."@,
        detected_text(ad) == "[*] Detected physical gateway: \x1b[1;36m"@ + ad.gateway_str
            + "\x1b[0m (Adapter: "@ + ad.name + ", Index: "@ + decimal(ad.if_index as nat)
            + ", Metric: "@ + decimal(ad.metric as nat) + ")"@,
{
}

/// What is logged and printed of written routes tells how many are in place, and how long it took;
/// the log tells the adapter too. Before, the number of subnets is told.
pub proof fn law_messages_tell_how_many(
    subnets: nat,
    applied: nat,
    ad: AdapterView,
    elapsed: Seq<char>,
)
    ensures
        applying_text(subnets) == "[*] Applying "@ + decimal(subnets)
            + " Iranian CIDR routes natively..."@,
        migration_text(applied, ad, elapsed) == "MIGRATION: "@ + decimal(applied)
            + " routes applied to "@ + ad.gateway_str + " ("@ + ad.name + " if "@ + decimal(
            ad.if_index as nat,
        ) + ") in "@ + elapsed,
        applied_text(applied, elapsed) == "\x1b[1;32m[+]\x1b[0m Applied "@ + decimal(applied)
            + " routes directly to Windows kernel table in \x1b[1;36m"@ + elapsed + "\x1b[0m."@,
{
}

/// Removal is told before and after unless the command is silent: first how many subnets there are,
/// then how many routes went and how long it took, and that the policy went. The log tells how many
/// routes went in any case.
pub proof fn law_removal_is_told_unless_silent(
    silent: bool,
    subnets: nat,
    deleted: nat,
    elapsed: Seq<char>,
)
    ensures
        silent ==> removing_text(silent, subnets).len() == 0 && removed_text(
            silent,
            deleted,
            elapsed,
        ).len() == 0,
        !silent ==> removing_text(silent, subnets).len() == 1 && removed_text(
            silent,
            deleted,
            elapsed,
        ).len() == 2,
        !silent ==> removing_text(silent, subnets)[0] == "[*] Removing "@ + decimal(subnets)
            + " Iranian CIDR routes from live routing table..."@,
        !silent ==> removed_text(silent, deleted, elapsed)[0] == "\x1b[1;32m[+]\x1b[0m Removed "@
            + decimal(deleted) + " routes in "@ + elapsed + "."@,
        !silent ==> removed_text(silent, deleted, elapsed)[1]
            == "\x1b[1;32m[+]\x1b[0m Removed DNS Split-Tunnel (NRPT) policy."@,
        disabled_log_text(deleted) == "DISABLED: "@ + decimal(deleted)
            + " routes purged, NRPT policy removed."@,
{
}

} // verus!
