use iran_route::nrpt::{
    domestic_namespaces, ensure_nrpt_policy, is_nrpt_active, is_up_to_date, registry_text,
    remove_nrpt_policy, rule_values, scan_policy, PolicyAction, PolicyProgress, PolicyRule,
    StoredValue, ValueKind, DOMESTIC_DNS_SERVERS, RULE_DISPLAY_NAME, RULE_GUID,
    VALUE_BUFFER_BYTES,
};
use iran_route::utf16::{bytes_to_units, to_wide, units_to_bytes};

fn text_value(s: &str) -> StoredValue {
    StoredValue { kind: Some(ValueKind::Text), data: units_to_bytes(&to_wide(s)) }
}

fn rule(key: &str, display: Option<&str>, servers: Option<&str>) -> PolicyRule {
    PolicyRule {
        key_name: key.encode_utf16().collect(),
        display_name: display.map(text_value),
        namespaces: None,
        servers: servers.map(text_value),
        options: None,
        version: None,
    }
}

fn written() -> PolicyRule {
    let mut values: Vec<Option<StoredValue>> = rule_values()
        .into_iter()
        .map(|v| Some(StoredValue { kind: Some(v.kind), data: v.data }))
        .collect();
    PolicyRule {
        key_name: RULE_GUID.encode_utf16().collect(),
        display_name: values[0].take(),
        namespaces: values[1].take(),
        servers: values[2].take(),
        options: values[3].take(),
        version: values[4].take(),
    }
}

#[test]
fn written_rule_is_in_force() {
    let rules = vec![rule("a", Some("Other"), Some("9.9.9.9")), written()];
    let (active, servers) = is_nrpt_active(&rules);
    assert!(active);
    assert_eq!(servers, "78.157.42.100;78.157.42.101;185.51.200.2;1.1.1.1");
    assert_eq!(servers, DOMESTIC_DNS_SERVERS);
}

#[test]
fn rules_of_others_do_not_count() {
    let rules = vec![
        rule("a", None, Some("1.1.1.1")),
        rule("b", Some("irandomesticdns"), None),
        rule("c", Some("IranDomesticDNS2"), None),
    ];
    assert_eq!(is_nrpt_active(&rules), (false, String::new()));
    assert_eq!(is_nrpt_active(&[]), (false, String::new()));
    assert!(remove_nrpt_policy(&rules).is_empty());
}

#[test]
fn first_own_rule_names_the_servers() {
    let rules = vec![
        rule("a", Some(RULE_DISPLAY_NAME), None),
        rule("b", Some(RULE_DISPLAY_NAME), Some("1.2.3.4")),
    ];
    assert_eq!(is_nrpt_active(&rules), (true, "Electro DNS".to_string()));
    assert_eq!(is_nrpt_active(&rules[1..]), (true, "1.2.3.4".to_string()));
}

#[test]
fn removal_takes_own_rules_and_leaves_others() {
    let rules = vec![
        rule("a", Some(RULE_DISPLAY_NAME), None),
        rule("b", Some("Other"), None),
        written(),
    ];
    let removed = remove_nrpt_policy(&rules);
    assert_eq!(removed, vec![to_wide("a"), to_wide(RULE_GUID)]);
    let left: Vec<PolicyRule> = rules
        .into_iter()
        .filter(|r| {
            let mut name = r.key_name.clone();
            name.push(0);
            !removed.contains(&name)
        })
        .collect();
    assert_eq!(left.len(), 1);
    assert!(!is_nrpt_active(&left).0);
}

#[test]
fn policy_is_written_step_by_step() {
    for active in [true, false] {
        assert_eq!(
            ensure_nrpt_policy(PolicyProgress::Scanned { active, current: false }),
            PolicyAction::CreatePolicyKey
        );
        assert_eq!(
            ensure_nrpt_policy(PolicyProgress::PolicyKey { active, code: 0, present: true }),
            PolicyAction::CreateRuleKey
        );
        assert_eq!(
            ensure_nrpt_policy(PolicyProgress::PolicyKey { active, code: 5, present: false }),
            PolicyAction::Finish { in_force: active }
        );
        assert_eq!(
            ensure_nrpt_policy(PolicyProgress::RuleKey { active, code: 0, present: false }),
            PolicyAction::Finish { in_force: active }
        );
        assert_eq!(
            ensure_nrpt_policy(PolicyProgress::RuleKey { active, code: 0, present: true }),
            PolicyAction::WriteRule
        );
    }
    assert_eq!(
        ensure_nrpt_policy(PolicyProgress::Scanned { active: true, current: true }),
        PolicyAction::Finish { in_force: true }
    );
    assert_eq!(
        ensure_nrpt_policy(PolicyProgress::Written),
        PolicyAction::Finish { in_force: true }
    );
}

#[test]
fn a_stale_rule_is_brought_up_to_date() {
    let mut stale = written();
    stale.servers = Some(text_value("9.9.9.9"));
    let rules = vec![rule("a", Some("Other"), None), stale];
    assert_eq!(is_nrpt_active(&rules), (true, "9.9.9.9".to_string()));
    let progress = scan_policy(&rules);
    assert_eq!(progress, PolicyProgress::Scanned { active: true, current: false });
    assert_eq!(ensure_nrpt_policy(progress), PolicyAction::CreatePolicyKey);
    let updated = vec![rule("a", Some("Other"), None), written()];
    let progress = scan_policy(&updated);
    assert_eq!(progress, PolicyProgress::Scanned { active: true, current: true });
    assert_eq!(ensure_nrpt_policy(progress), PolicyAction::Finish { in_force: true });
}

#[test]
fn every_value_counts() {
    assert!(is_up_to_date(&written()));
    let mut other = written();
    other.namespaces = None;
    assert!(!is_up_to_date(&other));
    let mut other = written();
    if let Some(v) = &mut other.namespaces {
        v.data.push(0);
    }
    assert!(!is_up_to_date(&other));
    let mut other = written();
    if let Some(v) = &mut other.options {
        v.data[0] = 9;
    }
    assert!(!is_up_to_date(&other));
    let mut other = written();
    if let Some(v) = &mut other.version {
        v.kind = None;
    }
    assert!(!is_up_to_date(&other));
    let mut other = written();
    other.display_name = Some(text_value("IranDomesticDNS2"));
    assert!(!is_up_to_date(&other));
}

#[test]
fn a_current_rule_under_another_key_is_left_alone() {
    let mut elsewhere = written();
    elsewhere.key_name = "{11111111-2222-3333-4444-555555555555}".encode_utf16().collect();
    assert!(is_up_to_date(&elsewhere));
    let progress = scan_policy(&[elsewhere]);
    assert_eq!(progress, PolicyProgress::Scanned { active: true, current: true });
    assert_eq!(ensure_nrpt_policy(progress), PolicyAction::Finish { in_force: true });
}

#[test]
fn an_outdated_rule_is_written_anew_beside_a_current_one() {
    let mut elsewhere = written();
    elsewhere.key_name = "{11111111-2222-3333-4444-555555555555}".encode_utf16().collect();
    let mut stale = written();
    stale.servers = Some(text_value("9.9.9.9"));
    let progress = scan_policy(&[elsewhere, stale]);
    assert_eq!(progress, PolicyProgress::Scanned { active: true, current: false });
}

#[test]
fn a_scan_of_foreign_rules_finds_nothing() {
    assert_eq!(scan_policy(&[]), PolicyProgress::Scanned { active: false, current: false });
    let rules = vec![rule("a", Some("Other"), None)];
    assert_eq!(scan_policy(&rules), PolicyProgress::Scanned { active: false, current: false });
    let elsewhere = vec![rule("a", Some(RULE_DISPLAY_NAME), Some(DOMESTIC_DNS_SERVERS))];
    assert_eq!(scan_policy(&elsewhere), PolicyProgress::Scanned { active: true, current: false });
}

#[test]
fn values_fit_the_buffer() {
    assert!(rule_values().iter().all(|v| v.data.len() <= VALUE_BUFFER_BYTES));
    assert_eq!(rule_values()[1].data.len(), 442);
}

#[test]
fn rule_has_five_values() {
    let values = rule_values();
    let names: Vec<String> =
        values.iter().map(|v| registry_text(&units_to_bytes(&v.name))).collect();
    assert_eq!(
        names,
        vec!["DisplayName", "Name", "GenericDNSServers", "ConfigOptions", "Version"]
    );
    let kinds: Vec<ValueKind> = values.iter().map(|v| v.kind).collect();
    assert_eq!(
        kinds,
        vec![
            ValueKind::Text,
            ValueKind::TextList,
            ValueKind::Text,
            ValueKind::Number,
            ValueKind::Number
        ]
    );
    assert_eq!(registry_text(&values[0].data), "IranDomesticDNS");
    assert_eq!(values[3].data, vec![8, 0, 0, 0]);
    assert_eq!(values[4].data, vec![2, 0, 0, 0]);
    let mut want = domestic_namespaces().join("\0");
    want.push_str("\0\0");
    assert_eq!(String::from_utf16(&bytes_to_units(&values[1].data)).unwrap(), want);
    assert_eq!(domestic_namespaces().len(), 19);
    assert_eq!(domestic_namespaces()[0], ".ir");
    assert_eq!(domestic_namespaces()[18], "paziresh24.com");
}
