//! The name resolution policy that sends domestic domains to domestic name servers: the rule in the
//! registry, how it is recognised, written, brought up to date and removed.
use crate::text::{
    lemma_trim_padded, lemma_trim_start_prefix, same_text, texts, to_text, trim, trim_chars,
    trim_end, trim_start, CharClass,
};
use crate::utf16::{
    bytes_to_units, bytes_units, decode_utf16, dword_bytes, dword_to_bytes, encode_multi_sz,
    from_utf16_lossy, law_multi_sz_round_trip, law_unit_bytes_round_trip,
    law_utf16_round_trip, law_wide_round_trip,
    multi_sz, multi_sz_entries, null_terminated, same_bytes, same_units, to_wide, unit_bytes,
    unit_rows, units_to_bytes, utf16, wide, wide_all,
};
use vstd::prelude::*;

verus! {

/// The display name by which the rule is recognised.
pub const RULE_DISPLAY_NAME: &'static str = "IranDomesticDNS";

/// The name of the registry key that the rule is written to.
pub const RULE_GUID: &'static str = "{CF636BA7-0BA9-4839-9AE9-451DF6945051}";

/// The name servers that the rule sends domestic domains to.
pub const DOMESTIC_DNS_SERVERS: &'static str = "78.157.42.100;78.157.42.101;185.51.200.2;1.1.1.1";

/// What is shown in place of the servers of a rule that names none.
pub const UNNAMED_SERVERS: &'static str = "Electro DNS";

/// The size of the buffer that registry values are read into; longer values count as missing.
pub const VALUE_BUFFER_BYTES: usize = 512;

/// The types of the registry values of a rule.
#[derive(Clone, Copy, Debug, PartialEq, Eq, Structural)]
pub enum ValueKind {
    Text,
    TextList,
    Number,
}

/// A value that was read from the registry: its type, if it is one of a rule's, and its bytes.
pub struct StoredValue {
    pub kind: Option<ValueKind>,
    pub data: Vec<u8>,
}

/// A rule of the policy as the registry holds it: the name of its key, and its values where they
/// could be read.
pub struct PolicyRule {
    pub key_name: Vec<u16>,
    pub display_name: Option<StoredValue>,
    pub namespaces: Option<StoredValue>,
    pub servers: Option<StoredValue>,
    pub options: Option<StoredValue>,
    pub version: Option<StoredValue>,
}

/// The text of a registry value: UTF-16 without null characters at its ends.
pub open spec fn value_text(bytes: Seq<u8>) -> Seq<char> {
    trim(decode_utf16(bytes_units(bytes)), CharClass::Nul)
}

/// The rule is one of this engine's: it has the display name that this engine writes.
pub open spec fn is_own_rule(rule: PolicyRule) -> bool {
    match rule.display_name {
        Some(v) => value_text(v.data@) == RULE_DISPLAY_NAME@,
        None => false,
    }
}

/// The servers that are shown for a rule.
pub open spec fn servers_text(rule: PolicyRule) -> Seq<char> {
    match rule.servers {
        Some(v) => value_text(v.data@),
        None => UNNAMED_SERVERS@,
    }
}

/// Rule `i` is the first of this engine's rules.
pub open spec fn is_first_own_rule(rules: Seq<PolicyRule>, i: int) -> bool {
    &&& 0 <= i < rules.len()
    &&& is_own_rule(rules[i])
    &&& forall|k: int| 0 <= k < i ==> !is_own_rule(#[trigger] rules[k])
}

/// One of the rules is this engine's.
pub open spec fn has_own_rule(rules: Seq<PolicyRule>) -> bool {
    exists|i: int| 0 <= i < rules.len() && is_own_rule(#[trigger] rules[i])
}

/// Reads the text of a registry value.
pub fn registry_text(bytes: &[u8]) -> (r: String)
    ensures
        r@ == value_text(bytes@),
{
    let units: Vec<u16> = bytes_to_units(bytes);
    let chars: Vec<char> = from_utf16_lossy(units.as_slice());
    to_text(trim_chars(chars.as_slice(), CharClass::Nul))
}

/// Whether the rule is one of this engine's.
pub fn recognise_rule(rule: &PolicyRule) -> (r: bool)
    ensures
        r == is_own_rule(*rule),
{
    match &rule.display_name {
        Some(v) => same_text(registry_text(v.data.as_slice()).as_str(), RULE_DISPLAY_NAME),
        None => false,
    }
}

/// Whether the policy is in force, and with which servers, from the rules that the registry holds.
pub fn is_nrpt_active(rules: &[PolicyRule]) -> (r: (bool, String))
    ensures
        r.0 == has_own_rule(rules@),
        r.0 ==> exists|i: int| #[trigger]
            is_first_own_rule(rules@, i) && r.1@ == servers_text(rules@[i]),
        !r.0 ==> r.1@ == Seq::<char>::empty(),
{
    let mut i: usize = 0;
    while i < rules.len()
        invariant
            i <= rules@.len(),
            forall|k: int| 0 <= k < i ==> !is_own_rule(#[trigger] rules@[k]),
        decreases rules@.len() - i,
    {
        if recognise_rule(&rules[i]) {
            let servers: String = match &rules[i].servers {
                Some(v) => registry_text(v.data.as_slice()),
                None => UNNAMED_SERVERS.to_owned(),
            };
            assert(is_first_own_rule(rules@, i as int));
            return (true, servers);
        }
        i = i + 1;
    }
    (false, String::new())
}

/// The names of the keys to remove, each with a null unit behind it, in order.
pub open spec fn own_key_names(rules: Seq<PolicyRule>) -> Seq<Seq<u16>>
    decreases rules.len(),
{
    if rules.len() == 0 {
        seq![]
    } else {
        let init: Seq<Seq<u16>> = own_key_names(rules.drop_last());
        if is_own_rule(rules.last()) {
            init.push(rules.last().key_name@.push(0))
        } else {
            init
        }
    }
}

/// The keys to remove so that the policy is no longer in force: the names of all of this engine's
/// rules, null-terminated.
pub fn remove_nrpt_policy(rules: &[PolicyRule]) -> (r: Vec<Vec<u16>>)
    ensures
        unit_rows(r@) == own_key_names(rules@),
{
    let mut out: Vec<Vec<u16>> = Vec::new();
    let mut i: usize = 0;
    assert(unit_rows(out@) =~= seq![]);
    while i < rules.len()
        invariant
            i <= rules@.len(),
            unit_rows(out@) == own_key_names(rules@.take(i as int)),
        decreases rules@.len() - i,
    {
        assert(rules@.take(i + 1).drop_last() =~= rules@.take(i as int));
        if recognise_rule(&rules[i]) {
            let ghost before: Seq<Seq<u16>> = unit_rows(out@);
            let name: Vec<u16> = null_terminated(rules[i].key_name.as_slice());
            out.push(name);
            assert(unit_rows(out@) =~= before.push(name@));
        }
        i = i + 1;
    }
    assert(rules@.take(rules@.len() as int) =~= rules@);
    out
}

/// How far bringing the policy up to date has come. `active` tells throughout whether a rule of this
/// engine was in force at the start.
#[derive(Clone, Copy, Debug, PartialEq, Eq, Structural)]
pub enum PolicyProgress {
    /// The rules were read; `current` tells whether there is a rule as it is written now, and none
    /// that is outdated.
    Scanned { active: bool, current: bool },
    /// The key of the policy was asked for: the code of the call, and whether a key came back.
    PolicyKey { active: bool, code: u32, present: bool },
    /// The key of the rule was asked for: the code of the call, and whether a key came back.
    RuleKey { active: bool, code: u32, present: bool },
    /// The values of the rule were written.
    Written,
}

/// What to do next for the policy.
#[derive(Clone, Copy, Debug, PartialEq, Eq, Structural)]
pub enum PolicyAction {
    /// Open the key of the policy, or create it.
    CreatePolicyKey,
    /// Open the key of the rule under it, or create it.
    CreateRuleKey,
    /// Write the values of the rule and flush the resolver cache.
    WriteRule,
    /// Nothing; `in_force` tells whether a rule of this engine is now in force.
    Finish { in_force: bool },
}

/// The next step towards a rule that is there and up to date. A rule that is there but differs from
/// what is written now is written anew, as one that is not there is written; where a key cannot be
/// had, what was in force stays so.
pub open spec fn next_policy_action(progress: PolicyProgress) -> PolicyAction {
    match progress {
        PolicyProgress::Scanned { active, current } => if current {
            PolicyAction::Finish { in_force: true }
        } else {
            PolicyAction::CreatePolicyKey
        },
        PolicyProgress::PolicyKey { active, code, present } => if code == 0 && present {
            PolicyAction::CreateRuleKey
        } else {
            PolicyAction::Finish { in_force: active }
        },
        PolicyProgress::RuleKey { active, code, present } => if code == 0 && present {
            PolicyAction::WriteRule
        } else {
            PolicyAction::Finish { in_force: active }
        },
        PolicyProgress::Written => PolicyAction::Finish { in_force: true },
    }
}

/// The next step towards a rule that is there and up to date.
pub fn ensure_nrpt_policy(progress: PolicyProgress) -> (r: PolicyAction)
    ensures
        r == next_policy_action(progress),
{
    match progress {
        PolicyProgress::Scanned { active: _, current } => {
            if current {
                PolicyAction::Finish { in_force: true }
            } else {
                PolicyAction::CreatePolicyKey
            }
        },
        PolicyProgress::PolicyKey { active, code, present } => {
            if code == 0 && present {
                PolicyAction::CreateRuleKey
            } else {
                PolicyAction::Finish { in_force: active }
            }
        },
        PolicyProgress::RuleKey { active, code, present } => {
            if code == 0 && present {
                PolicyAction::WriteRule
            } else {
                PolicyAction::Finish { in_force: active }
            }
        },
        PolicyProgress::Written => PolicyAction::Finish { in_force: true },
    }
}

/// A registry value to write: its null-terminated name, its type and its bytes.
pub struct RegistryValue {
    pub name: Vec<u16>,
    pub kind: ValueKind,
    pub data: Vec<u8>,
}

impl View for RegistryValue {
    type V = (Seq<u16>, ValueKind, Seq<u8>);

    open spec fn view(&self) -> (Seq<u16>, ValueKind, Seq<u8>) {
        (self.name@, self.kind, self.data@)
    }
}

/// The domains that domestic name servers resolve.
pub open spec fn namespaces() -> Seq<Seq<char>> {
    seq![
        ".ir"@,
        "digikala.com"@,
        "torob.com"@,
        "snapp.express"@,
        "aparat.com"@,
        "filimo.com"@,
        "telewebion.com"@,
        "eitaa.com"@,
        "bale.ai"@,
        "gap.im"@,
        "neshan.org"@,
        "basalam.com"@,
        "snapptrip.com"@,
        "sheypoor.com"@,
        "cinematicket.org"@,
        "tiwall.com"@,
        "fidibo.com"@,
        "taaghche.com"@,
        "paziresh24.com"@,
    ]
}

/// The domains that domestic name servers resolve.
pub fn domestic_namespaces() -> (r: Vec<String>)
    ensures
        texts(r@) == namespaces(),
{
    let out: Vec<String> = vec![
        ".ir".to_owned(),
        "digikala.com".to_owned(),
        "torob.com".to_owned(),
        "snapp.express".to_owned(),
        "aparat.com".to_owned(),
        "filimo.com".to_owned(),
        "telewebion.com".to_owned(),
        "eitaa.com".to_owned(),
        "bale.ai".to_owned(),
        "gap.im".to_owned(),
        "neshan.org".to_owned(),
        "basalam.com".to_owned(),
        "snapptrip.com".to_owned(),
        "sheypoor.com".to_owned(),
        "cinematicket.org".to_owned(),
        "tiwall.com".to_owned(),
        "fidibo.com".to_owned(),
        "taaghche.com".to_owned(),
        "paziresh24.com".to_owned(),
    ];
    assert(texts(out@) =~= namespaces());
    out
}

/// The values of the rule: its display name, its domains, its servers, and the two numbers that
/// mark it as a rule for generic name servers in the format of version two.
pub open spec fn rule_content() -> Seq<(Seq<u16>, ValueKind, Seq<u8>)> {
    seq![
        (wide("DisplayName"@), ValueKind::Text, unit_bytes(wide(RULE_DISPLAY_NAME@))),
        (wide("Name"@), ValueKind::TextList, unit_bytes(multi_sz(namespaces()))),
        (wide("GenericDNSServers"@), ValueKind::Text, unit_bytes(wide(DOMESTIC_DNS_SERVERS@))),
        (wide("ConfigOptions"@), ValueKind::Number, dword_bytes(8)),
        (wide("Version"@), ValueKind::Number, dword_bytes(2)),
    ]
}

/// A text value to write.
fn text_value(name: &str, text: &str) -> (r: RegistryValue)
    ensures
        r@ == (wide(name@), ValueKind::Text, unit_bytes(wide(text@))),
{
    RegistryValue {
        name: to_wide(name),
        kind: ValueKind::Text,
        data: units_to_bytes(to_wide(text).as_slice()),
    }
}

/// A number to write.
fn number_value(name: &str, n: u32) -> (r: RegistryValue)
    ensures
        r@ == (wide(name@), ValueKind::Number, dword_bytes(n)),
{
    RegistryValue { name: to_wide(name), kind: ValueKind::Number, data: dword_to_bytes(n) }
}

/// The values of the rule, in the order in which they are written.
pub fn rule_values() -> (r: Vec<RegistryValue>)
    ensures
        r@.map_values(|v: RegistryValue| v@) == rule_content(),
{
    let names: Vec<String> = domestic_namespaces();
    let list: RegistryValue = RegistryValue {
        name: to_wide("Name"),
        kind: ValueKind::TextList,
        data: units_to_bytes(encode_multi_sz(names.as_slice()).as_slice()),
    };
    let out: Vec<RegistryValue> = vec![
        text_value("DisplayName", RULE_DISPLAY_NAME),
        list,
        text_value("GenericDNSServers", DOMESTIC_DNS_SERVERS),
        number_value("ConfigOptions", 8),
        number_value("Version", 2),
    ];
    assert(out@.map_values(|v: RegistryValue| v@) =~= rule_content());
    out
}

/// The value that was read is the one that is written: it has its type and its bytes.
pub open spec fn is_stored(
    stored: Option<StoredValue>,
    value: (Seq<u16>, ValueKind, Seq<u8>),
) -> bool {
    match stored {
        Some(v) => v.kind == Some(value.1) && v.data@ == value.2,
        None => false,
    }
}

/// The rule is up to date: it has every value that is written.
pub open spec fn is_current_rule(rule: PolicyRule) -> bool {
    &&& is_stored(rule.display_name, rule_content()[0])
    &&& is_stored(rule.namespaces, rule_content()[1])
    &&& is_stored(rule.servers, rule_content()[2])
    &&& is_stored(rule.options, rule_content()[3])
    &&& is_stored(rule.version, rule_content()[4])
}

/// The rule stands under the key that this engine writes to, and is not up to date.
pub open spec fn is_outdated(rule: PolicyRule) -> bool {
    rule.key_name@ == utf16(RULE_GUID@) && is_own_rule(rule) && !is_current_rule(rule)
}

/// One of the rules is up to date, under whatever key.
pub open spec fn has_current_rule(rules: Seq<PolicyRule>) -> bool {
    exists|i: int| 0 <= i < rules.len() && is_current_rule(#[trigger] rules[i])
}

/// One of the rules is outdated.
pub open spec fn has_outdated_rule(rules: Seq<PolicyRule>) -> bool {
    exists|i: int| 0 <= i < rules.len() && is_outdated(#[trigger] rules[i])
}

/// There is nothing to write: one of the rules is up to date, and none is outdated.
pub open spec fn is_settled(rules: Seq<PolicyRule>) -> bool {
    has_current_rule(rules) && !has_outdated_rule(rules)
}

/// Whether the value that was read is the one that is written.
fn matches_stored(stored: &Option<StoredValue>, value: &RegistryValue) -> (r: bool)
    ensures
        r == is_stored(*stored, value@),
{
    match stored {
        Some(v) => {
            let same_kind: bool = match v.kind {
                Some(kind) => kind == value.kind,
                None => false,
            };
            same_kind && same_bytes(v.data.as_slice(), value.data.as_slice())
        },
        None => false,
    }
}

/// Whether the rule is up to date.
pub fn is_up_to_date(rule: &PolicyRule) -> (r: bool)
    ensures
        r == is_current_rule(*rule),
{
    let values: Vec<RegistryValue> = rule_values();
    let ghost views: Seq<(Seq<u16>, ValueKind, Seq<u8>)> = values@.map_values(
        |v: RegistryValue| v@,
    );
    assert(views == rule_content());
    assert(values@.len() == views.len());
    assert(rule_content().len() == 5);
    assert(forall|i: int| 0 <= i < 5 ==> (#[trigger] values@[i])@ == views[i]);
    matches_stored(&rule.display_name, &values[0]) && matches_stored(&rule.namespaces, &values[1])
        && matches_stored(&rule.servers, &values[2]) && matches_stored(&rule.options, &values[3])
        && matches_stored(&rule.version, &values[4])
}

/// Whether the rule stands under the key that this engine writes to.
fn has_own_key(rule: &PolicyRule) -> (r: bool)
    ensures
        r == (rule.key_name@ == utf16(RULE_GUID@)),
{
    let name: Vec<u16> = null_terminated(rule.key_name.as_slice());
    let own: Vec<u16> = to_wide(RULE_GUID);
    proof {
        assert(rule.key_name@.push(0).drop_last() =~= rule.key_name@);
        assert(wide(RULE_GUID@).drop_last() =~= utf16(RULE_GUID@));
    }
    same_units(name.as_slice(), own.as_slice())
}

/// Where bringing the policy up to date starts, from the rules that the registry holds.
pub fn scan_policy(rules: &[PolicyRule]) -> (r: PolicyProgress)
    ensures
        r == (PolicyProgress::Scanned {
            active: has_own_rule(rules@),
            current: is_settled(rules@),
        }),
{
    let mut active: bool = false;
    let mut current: bool = false;
    let mut outdated: bool = false;
    let mut i: usize = 0;
    while i < rules.len()
        invariant
            i <= rules@.len(),
            active <==> exists|k: int| 0 <= k < i && is_own_rule(#[trigger] rules@[k]),
            current <==> exists|k: int| 0 <= k < i && is_current_rule(#[trigger] rules@[k]),
            outdated <==> exists|k: int| 0 <= k < i && is_outdated(#[trigger] rules@[k]),
        decreases rules@.len() - i,
    {
        let own: bool = recognise_rule(&rules[i]);
        let up_to_date: bool = is_up_to_date(&rules[i]);
        if own {
            active = true;
        }
        if up_to_date {
            current = true;
        } else if own && has_own_key(&rules[i]) {
            outdated = true;
        }
        i = i + 1;
    }
    PolicyProgress::Scanned { active, current: current && !outdated }
}

/// No character of the text takes two units.
spec fn is_plain(s: Seq<char>) -> bool {
    forall|i: int| 0 <= i < s.len() ==> 0x10000 > #[trigger] s[i] as int
}

proof fn lemma_utf16_len(s: Seq<char>)
    requires
        is_plain(s),
    ensures
        utf16(s).len() == s.len(),
    decreases s.len(),
{
    if s.len() > 0 {
        let init: Seq<char> = s.drop_last();
        assert forall|i: int| 0 <= i < init.len() implies 0x10000 > #[trigger] init[i] as int by {
            assert(0x10000 > s[i] as int);
        }
        lemma_utf16_len(init);
        assert(0x10000 > s[s.len() - 1] as int);
    }
}

/// A text that was written to a registry value is read back, unless a null character stands at one
/// of its ends.
pub proof fn law_registry_text_round_trip(s: Seq<char>)
    requires
        s.len() > 0,
        s[0] != '\0',
        s.last() != '\0',
    ensures
        value_text(unit_bytes(wide(s))) == s,
{
    law_unit_bytes_round_trip(wide(s));
    law_wide_round_trip(s);
    let t: Seq<char> = s.push('\0');
    assert(t[0] == s[0]);
    assert(t.last() == '\0');
    assert(t.drop_last() =~= s);
    assert(trim_start(t, CharClass::Nul) == t);
    assert(trim_end(s, CharClass::Nul) == s);
    assert(trim_end(t, CharClass::Nul) == s);
}

/// A rule that is up to date is one of this engine's and shows the domestic name servers.
pub proof fn law_written_rule_reads_back(rule: PolicyRule)
    requires
        is_current_rule(rule),
    ensures
        is_own_rule(rule),
        servers_text(rule) == DOMESTIC_DNS_SERVERS@,
{
    reveal_strlit("IranDomesticDNS");
    reveal_strlit("78.157.42.100;78.157.42.101;185.51.200.2;1.1.1.1");
    law_registry_text_round_trip(RULE_DISPLAY_NAME@);
    law_registry_text_round_trip(DOMESTIC_DNS_SERVERS@);
}

/// Where the rule that is up to date is the only one of this engine's in the registry, the policy is in force
/// with the domestic name servers, wherever the rule stands among the others.
pub proof fn law_policy_in_force_once_written(rules: Seq<PolicyRule>, i: int)
    requires
        0 <= i < rules.len(),
        is_current_rule(rules[i]),
        forall|k: int| 0 <= k < rules.len() && k != i ==> !is_own_rule(#[trigger] rules[k]),
    ensures
        has_own_rule(rules),
        is_first_own_rule(rules, i),
        forall|j: int| #[trigger] is_first_own_rule(rules, j) ==> servers_text(rules[j])
            == DOMESTIC_DNS_SERVERS@,
{
    law_written_rule_reads_back(rules[i]);
}

proof fn lemma_own_key_named(rules: Seq<PolicyRule>, i: int)
    requires
        0 <= i < rules.len(),
        is_own_rule(rules[i]),
    ensures
        own_key_names(rules).contains(rules[i].key_name@.push(0)),
    decreases rules.len(),
{
    let name: Seq<u16> = rules[i].key_name@.push(0);
    let init: Seq<Seq<u16>> = own_key_names(rules.drop_last());
    if i == rules.len() - 1 {
        assert(own_key_names(rules)[init.len() as int] == name);
    } else {
        lemma_own_key_named(rules.drop_last(), i);
        let k: int = choose|k: int| 0 <= k < init.len() && init[k] == name;
        assert(own_key_names(rules)[k] == name);
    }
}

proof fn lemma_named_key_own(rules: Seq<PolicyRule>, j: int)
    requires
        0 <= j < own_key_names(rules).len(),
    ensures
        exists|i: int|
            0 <= i < rules.len() && is_own_rule(#[trigger] rules[i]) && rules[i].key_name@.push(0)
                == own_key_names(rules)[j],
    decreases rules.len(),
{
    let init: Seq<Seq<u16>> = own_key_names(rules.drop_last());
    if j < init.len() {
        lemma_named_key_own(rules.drop_last(), j);
        let i: int = choose|i: int|
            0 <= i < rules.drop_last().len() && is_own_rule(#[trigger] rules.drop_last()[i])
                && rules.drop_last()[i].key_name@.push(0) == init[j];
        assert(is_own_rule(rules[i]) && rules[i].key_name@.push(0) == own_key_names(rules)[j]);
    } else {
        let i: int = rules.len() - 1;
        assert(is_own_rule(rules[i]));
    }
}

/// Once the named keys are removed, the policy is no longer in force: no rule that is left is this
/// engine's.
pub proof fn law_policy_off_once_removed(rules: Seq<PolicyRule>, left: Seq<PolicyRule>)
    requires
        forall|i: int|
            0 <= i < left.len() ==> rules.contains(#[trigger] left[i]) && !own_key_names(
                rules,
            ).contains(left[i].key_name@.push(0)),
    ensures
        !has_own_rule(left),
{
    if has_own_rule(left) {
        let i: int = choose|i: int| 0 <= i < left.len() && is_own_rule(#[trigger] left[i]);
        assert(rules.contains(left[i]));
        let k: int = choose|k: int| 0 <= k < rules.len() && rules[k] == left[i];
        lemma_own_key_named(rules, k);
    }
}

/// Where no two rules have the same key, removing the policy removes no rule that is not this
/// engine's.
pub proof fn law_removal_spares_others(rules: Seq<PolicyRule>, i: int)
    requires
        0 <= i < rules.len(),
        !is_own_rule(rules[i]),
        forall|j: int, k: int|
            0 <= j < rules.len() && 0 <= k < rules.len() && j != k ==> (#[trigger] rules[j]).key_name@
                != (#[trigger] rules[k]).key_name@,
    ensures
        !own_key_names(rules).contains(rules[i].key_name@.push(0)),
{
    let name: Seq<u16> = rules[i].key_name@.push(0);
    if own_key_names(rules).contains(name) {
        let j: int = choose|j: int| 0 <= j < own_key_names(rules).len() && own_key_names(rules)[j] == name;
        lemma_named_key_own(rules, j);
        let k: int = choose|k: int|
            0 <= k < rules.len() && is_own_rule(#[trigger] rules[k]) && rules[k].key_name@.push(0)
                == own_key_names(rules)[j];
        assert(rules[k].key_name@.push(0).drop_last() =~= rules[k].key_name@);
        assert(name.drop_last() =~= rules[i].key_name@);
    }
}

/// The outcome of all steps, where the registry holds `rules` at first and the two keys come back as
/// given: whether the rule was written, and whether a rule is in force at the end.
pub open spec fn policy_outcome(
    rules: Seq<PolicyRule>,
    policy_key: (u32, bool),
    rule_key: (u32, bool),
) -> (bool, bool) {
    let active: bool = has_own_rule(rules);
    let current: bool = is_settled(rules);
    match next_policy_action(PolicyProgress::Scanned { active, current }) {
        PolicyAction::Finish { in_force } => (false, in_force),
        _ => match next_policy_action(
            PolicyProgress::PolicyKey { active, code: policy_key.0, present: policy_key.1 },
        ) {
            PolicyAction::Finish { in_force } => (false, in_force),
            _ => match next_policy_action(
                PolicyProgress::RuleKey { active, code: rule_key.0, present: rule_key.1 },
            ) {
                PolicyAction::Finish { in_force } => (false, in_force),
                _ => match next_policy_action(PolicyProgress::Written) {
                    PolicyAction::Finish { in_force } => (true, in_force),
                    _ => (true, false),
                },
            },
        },
    }
}

/// The rule is written if and only if there is something to write and both keys can be had. A rule is
/// in force at the end if and only if one was so before or the rule was written.
pub proof fn law_policy_written_once(
    rules: Seq<PolicyRule>,
    policy_key: (u32, bool),
    rule_key: (u32, bool),
)
    ensures
        ({
            let (written, in_force) = policy_outcome(rules, policy_key, rule_key);
            &&& written <==> !is_settled(rules) && policy_key == (0u32, true) && rule_key == (
                0u32,
                true,
            )
            &&& in_force <==> has_own_rule(rules) || written
        }),
{
    if has_current_rule(rules) {
        let i: int = choose|i: int| 0 <= i < rules.len() && is_current_rule(#[trigger] rules[i]);
        law_written_rule_reads_back(rules[i]);
    }
}

/// A rule of this engine under its own key whose servers or domains are not those that are written
/// now is written anew where both keys can be had, whatever else the registry holds.
pub proof fn law_stale_rule_is_updated(rules: Seq<PolicyRule>, i: int)
    requires
        0 <= i < rules.len(),
        rules[i].key_name@ == utf16(RULE_GUID@),
        is_own_rule(rules[i]),
        !is_stored(rules[i].servers, rule_content()[2]) || !is_stored(
            rules[i].namespaces,
            rule_content()[1],
        ),
    ensures
        policy_outcome(rules, (0, true), (0, true)) == (true, true),
{
    assert(is_outdated(rules[i]));
}

/// A rule that is up to date is enough under whatever key it stands: with no outdated rule beside
/// it, nothing is written, and the policy is in force.
pub proof fn law_current_rule_suffices(
    rules: Seq<PolicyRule>,
    i: int,
    policy_key: (u32, bool),
    rule_key: (u32, bool),
)
    requires
        0 <= i < rules.len(),
        is_current_rule(rules[i]),
        !has_outdated_rule(rules),
    ensures
        has_own_rule(rules),
        policy_outcome(rules, policy_key, rule_key) == (false, true),
{
    law_written_rule_reads_back(rules[i]);
}

/// Once the rule was written, the policy is in force, and another run writes nothing, whatever the
/// registry holds under other keys.
pub proof fn law_update_settles(
    after: Seq<PolicyRule>,
    i: int,
    policy_key: (u32, bool),
    rule_key: (u32, bool),
)
    requires
        0 <= i < after.len(),
        is_current_rule(after[i]),
        forall|k: int|
            0 <= k < after.len() && k != i ==> (#[trigger] after[k]).key_name@ != utf16(RULE_GUID@),
    ensures
        is_settled(after),
        has_own_rule(after),
        policy_outcome(after, policy_key, rule_key) == (false, true),
{
    law_written_rule_reads_back(after[i]);
}

/// How many units the texts of a list take, each with its null unit, where every character takes
/// one.
spec fn units_of(list: Seq<Seq<char>>) -> nat
    decreases list.len(),
{
    if list.len() == 0 {
        0
    } else {
        list[0].len() + 1 + units_of(list.skip(1))
    }
}

proof fn lemma_wide_all_len(list: Seq<Seq<char>>)
    requires
        forall|i: int| 0 <= i < list.len() ==> is_plain(#[trigger] list[i]),
    ensures
        wide_all(list).len() == units_of(list),
    decreases list.len(),
{
    if list.len() > 0 {
        let tail: Seq<Seq<char>> = list.skip(1);
        assert forall|i: int| 0 <= i < tail.len() implies is_plain(#[trigger] tail[i]) by {
            assert(is_plain(list[i + 1]));
        }
        lemma_wide_all_len(tail);
        assert(is_plain(list[0]));
        lemma_utf16_len(list[0]);
    }
}

/// What the domains from the `i`th on take.
proof fn lemma_units_step(i: int)
    requires
        0 <= i < namespaces().len(),
    ensures
        units_of(namespaces().skip(i)) == namespaces()[i].len() + 1 + units_of(
            namespaces().skip(i + 1),
        ),
{
    assert(namespaces().skip(i).skip(1) =~= namespaces().skip(i + 1));
}

/// Every domain has at least one character, none of them null and none of them above 65535; all
/// together, with a null unit behind each, they take 220 units.
proof fn lemma_namespaces()
    ensures
        forall|i: int|
            0 <= i < namespaces().len() ==> (#[trigger] namespaces()[i]).len() > 0
                && !namespaces()[i].contains('\0') && is_plain(namespaces()[i]),
        units_of(namespaces()) == 220,
{
    reveal_strlit(".ir");
    reveal_strlit("digikala.com");
    reveal_strlit("torob.com");
    reveal_strlit("snapp.express");
    reveal_strlit("aparat.com");
    reveal_strlit("filimo.com");
    reveal_strlit("telewebion.com");
    reveal_strlit("eitaa.com");
    reveal_strlit("bale.ai");
    reveal_strlit("gap.im");
    reveal_strlit("neshan.org");
    reveal_strlit("basalam.com");
    reveal_strlit("snapptrip.com");
    reveal_strlit("sheypoor.com");
    reveal_strlit("cinematicket.org");
    reveal_strlit("tiwall.com");
    reveal_strlit("fidibo.com");
    reveal_strlit("taaghche.com");
    reveal_strlit("paziresh24.com");
    let list: Seq<Seq<char>> = namespaces();
    assert forall|i: int| 0 <= i < list.len() implies (#[trigger] list[i]).len() > 0
        && !list[i].contains('\0') && is_plain(list[i]) by {
    }
    assert(list.skip(list.len() as int) =~= seq![]);
    assert(list.skip(0) =~= list);
    lemma_units_step(0);
    lemma_units_step(1);
    lemma_units_step(2);
    lemma_units_step(3);
    lemma_units_step(4);
    lemma_units_step(5);
    lemma_units_step(6);
    lemma_units_step(7);
    lemma_units_step(8);
    lemma_units_step(9);
    lemma_units_step(10);
    lemma_units_step(11);
    lemma_units_step(12);
    lemma_units_step(13);
    lemma_units_step(14);
    lemma_units_step(15);
    lemma_units_step(16);
    lemma_units_step(17);
    lemma_units_step(18);
}

/// The list of domains that is written reads back as the domains, one entry each.
pub proof fn law_namespaces_round_trip()
    ensures
        multi_sz_entries(bytes_units(rule_content()[1].2)) == namespaces().map_values(
            |s: Seq<char>| utf16(s),
        ),
{
    lemma_namespaces();
    law_multi_sz_round_trip(namespaces());
    law_unit_bytes_round_trip(multi_sz(namespaces()));
}

/// Every value of the rule fits the buffer that values are read into, so a rule that was written is
/// read in full.
pub proof fn law_rule_fits_buffer()
    ensures
        forall|i: int|
            0 <= i < rule_content().len() ==> (#[trigger] rule_content()[i]).2.len()
                <= VALUE_BUFFER_BYTES,
{
    reveal_strlit("IranDomesticDNS");
    reveal_strlit("78.157.42.100;78.157.42.101;185.51.200.2;1.1.1.1");
    lemma_utf16_len(RULE_DISPLAY_NAME@);
    lemma_utf16_len(DOMESTIC_DNS_SERVERS@);
    lemma_namespaces();
    lemma_wide_all_len(namespaces());
}

/// Null characters around a text in a registry value are not read, and nothing else is lost: a text
/// with no null character at its ends is read back from its units, with null units around them or
/// without.
pub proof fn law_registry_text_is_what_was_stored(before: nat, s: Seq<char>, after: nat)
    requires
        s.len() > 0 ==> s[0] != '\0' && s.last() != '\0',
    ensures
        value_text(
            unit_bytes(
                utf16(Seq::new(before, |i: int| '\0') + s + Seq::new(after, |i: int| '\0')),
            ),
        ) == s,
{
    let k: CharClass = CharClass::Nul;
    let x: Seq<char> = Seq::new(before, |i: int| '\0');
    let y: Seq<char> = Seq::new(after, |i: int| '\0');
    let all: Seq<char> = x + s + y;
    law_unit_bytes_round_trip(utf16(all));
    law_utf16_round_trip(all);
    if s.len() > 0 {
        lemma_trim_padded(x, s, y, k);
    } else {
        let none: Seq<char> = seq![];
        assert(all =~= (x + y) + none);
        lemma_trim_start_prefix(x + y, none, k);
        assert(trim(all, k) =~= s);
    }
}

proof fn lemma_wide_is_text_and_null(s: Seq<char>)
    ensures
        wide(s) == utf16(Seq::new(0, |i: int| '\0') + s + Seq::new(1, |i: int| '\0')),
{
    let t: Seq<char> = Seq::new(0, |i: int| '\0') + s + Seq::new(1, |i: int| '\0');
    assert(t =~= s.push('\0'));
    assert(s.push('\0').drop_last() =~= s);
    assert(wide(s) =~= utf16(t));
}

/// A rule whose display name is the text `s` is this engine's if and only if `s` is the engine's
/// display name, letter for letter; a rule without a display name is not.
pub proof fn law_rule_is_own_iff_named_so(rule: PolicyRule, s: Seq<char>)
    requires
        s.len() > 0 ==> s[0] != '\0' && s.last() != '\0',
    ensures
        (rule.display_name matches Some(v) && v.data@ == unit_bytes(wide(s))) ==> (is_own_rule(rule)
            <==> s == "IranDomesticDNS"@),
        rule.display_name is None ==> !is_own_rule(rule),
{
    law_registry_text_is_what_was_stored(0, s, 1);
    lemma_wide_is_text_and_null(s);
}

/// The policy counts as in force if and only if some rule has a display name that reads, without
/// null characters at its ends, as the engine's; the servers that are shown for a rule are what its
/// servers value reads as, and a fixed text where it has none.
pub proof fn law_policy_is_seen_by_display_name(rules: Seq<PolicyRule>, i: int)
    ensures
        has_own_rule(rules) <==> exists|k: int|
            0 <= k < rules.len() && (#[trigger] rules[k]).display_name is Some && trim(
                decode_utf16(bytes_units(rules[k].display_name->0.data@)),
                CharClass::Nul,
            ) == "IranDomesticDNS"@,
        0 <= i < rules.len() ==> match rules[i].servers {
            Some(v) => servers_text(rules[i]) == trim(
                decode_utf16(bytes_units(v.data@)),
                CharClass::Nul,
            ),
            None => servers_text(rules[i]) == "Electro DNS"@,
        },
{
    if has_own_rule(rules) {
        let k: int = choose|k: int| 0 <= k < rules.len() && is_own_rule(#[trigger] rules[k]);
        assert(rules[k].display_name is Some);
    }
    if exists|k: int|
        0 <= k < rules.len() && (#[trigger] rules[k]).display_name is Some && trim(
            decode_utf16(bytes_units(rules[k].display_name->0.data@)),
            CharClass::Nul,
        ) == "IranDomesticDNS"@ {
        let k: int = choose|k: int|
            0 <= k < rules.len() && (#[trigger] rules[k]).display_name is Some && trim(
                decode_utf16(bytes_units(rules[k].display_name->0.data@)),
                CharClass::Nul,
            ) == "IranDomesticDNS"@;
        assert(is_own_rule(rules[k]));
    }
}

/// The rule whose servers are shown has the engine's display name, and no rule before it has.
pub proof fn law_first_named_rule_is_shown(rules: Seq<PolicyRule>, i: int)
    ensures
        is_first_own_rule(rules, i) <==> {
            &&& 0 <= i < rules.len()
            &&& rules[i].display_name is Some
            &&& trim(decode_utf16(bytes_units(rules[i].display_name->0.data@)), CharClass::Nul)
                == "IranDomesticDNS"@
            &&& forall|k: int|
                0 <= k < i ==> (#[trigger] rules[k]).display_name is None || trim(
                    decode_utf16(bytes_units(rules[k].display_name->0.data@)),
                    CharClass::Nul,
                ) != "IranDomesticDNS"@
        },
{
    if is_first_own_rule(rules, i) {
        assert forall|k: int| 0 <= k < i implies (#[trigger] rules[k]).display_name is None || trim(
            decode_utf16(bytes_units(rules[k].display_name->0.data@)),
            CharClass::Nul,
        ) != "IranDomesticDNS"@ by {
            assert(!is_own_rule(rules[k]));
        }
    }
}

/// Keys are named for removal one by one and in order: the key of a rule is named, as it stands with
/// one null unit behind it, if and only if the rule has a display name that reads as the engine's.
pub proof fn law_keys_are_named_one_by_one(first: Seq<PolicyRule>, rule: PolicyRule)
    ensures
        ({
            let named: bool = rule.display_name is Some && trim(
                decode_utf16(bytes_units(rule.display_name->0.data@)),
                CharClass::Nul,
            ) == "IranDomesticDNS"@;
            own_key_names(first.push(rule)) == own_key_names(first) + (if named {
                seq![rule.key_name@ + seq![0u16]]
            } else {
                seq![]
            })
        }),
        own_key_names(Seq::<PolicyRule>::empty()) == Seq::<Seq<u16>>::empty(),
{
    assert(first.push(rule).drop_last() =~= first);
    assert(rule.key_name@ + seq![0u16] =~= rule.key_name@.push(0));
    let names: Seq<Seq<u16>> = own_key_names(first);
    assert(names.push(rule.key_name@.push(0)) =~= names + seq![rule.key_name@.push(0)]);
    assert(names + seq![] =~= names);
}

/// Every key that is named for removal is that of a rule with the engine's display name.
pub proof fn law_removed_keys_bear_the_name(rules: Seq<PolicyRule>, j: int)
    requires
        0 <= j < own_key_names(rules).len(),
    ensures
        exists|i: int|
            {
                &&& 0 <= i < rules.len()
                &&& own_key_names(rules)[j] == (#[trigger] rules[i]).key_name@ + seq![0u16]
                &&& rules[i].display_name is Some
                &&& trim(
                    decode_utf16(bytes_units(rules[i].display_name->0.data@)),
                    CharClass::Nul,
                ) == "IranDomesticDNS"@
            },
{
    lemma_named_key_own(rules, j);
    let i: int = choose|i: int|
        0 <= i < rules.len() && is_own_rule(#[trigger] rules[i]) && rules[i].key_name@.push(0)
            == own_key_names(rules)[j];
    assert(rules[i].key_name@ + seq![0u16] =~= rules[i].key_name@.push(0));
}

/// Which step follows which: the policy key is asked for exactly where a scan found something to
/// write, the rule key exactly once the policy key is there, and the values are written exactly once
/// the rule key is there; the end tells that a rule is in force exactly where the scan found it up
/// to date, where one was in force at the start, or where the values were written.
pub proof fn law_policy_steps_follow(p: PolicyProgress)
    ensures
        next_policy_action(p) == PolicyAction::CreatePolicyKey <==> (p matches PolicyProgress::Scanned {
            active,
            current,
        } && !current),
        next_policy_action(p) == PolicyAction::CreateRuleKey <==> (p matches PolicyProgress::PolicyKey {
            active,
            code,
            present,
        } && code == 0 && present),
        next_policy_action(p) == PolicyAction::WriteRule <==> (p matches PolicyProgress::RuleKey {
            active,
            code,
            present,
        } && code == 0 && present),
        next_policy_action(p) matches PolicyAction::Finish { in_force } ==> in_force == match p {
            PolicyProgress::Scanned { active, current } => current,
            PolicyProgress::PolicyKey { active, code, present } => active,
            PolicyProgress::RuleKey { active, code, present } => active,
            PolicyProgress::Written => true,
        },
{
}

/// There is nothing to write exactly where some rule has all five values that are written, type and
/// bytes, and every rule with the engine's display name under the engine's key has them too.
pub proof fn law_settled_iff_values_in_place(rules: Seq<PolicyRule>)
    ensures
        is_settled(rules) <==> {
            &&& exists|i: int|
                0 <= i < rules.len() && is_current_rule(#[trigger] rules[i])
            &&& forall|i: int|
                0 <= i < rules.len() && (#[trigger] rules[i]).key_name@ == utf16(
                    "{CF636BA7-0BA9-4839-9AE9-451DF6945051}"@,
                ) && is_own_rule(rules[i]) ==> is_current_rule(rules[i])
        },
{
    if has_outdated_rule(rules) {
        let i: int = choose|i: int| 0 <= i < rules.len() && is_outdated(#[trigger] rules[i]);
        assert(rules[i].key_name@ == utf16(RULE_GUID@));
    } else {
        assert forall|i: int|
            0 <= i < rules.len() && (#[trigger] rules[i]).key_name@ == utf16(
                "{CF636BA7-0BA9-4839-9AE9-451DF6945051}"@,
            ) && is_own_rule(rules[i]) implies is_current_rule(rules[i]) by {
            assert(!is_outdated(rules[i]));
        }
    }
}

/// A rule is up to date if and only if it has these values: its display name, the list of domains,
/// the servers, and the numbers eight and two, each of its type.
pub proof fn law_current_iff_five_values(rule: PolicyRule)
    ensures
        is_current_rule(rule) <==> {
            &&& rule.display_name matches Some(v) && v.kind == Some(ValueKind::Text) && v.data@
                == unit_bytes(wide("IranDomesticDNS"@))
            &&& rule.namespaces matches Some(v) && v.kind == Some(ValueKind::TextList) && v.data@
                == unit_bytes(multi_sz(namespaces()))
            &&& rule.servers matches Some(v) && v.kind == Some(ValueKind::Text) && v.data@
                == unit_bytes(wide("78.157.42.100;78.157.42.101;185.51.200.2;1.1.1.1"@))
            &&& rule.options matches Some(v) && v.kind == Some(ValueKind::Number) && v.data@
                == seq![8u8, 0, 0, 0]
            &&& rule.version matches Some(v) && v.kind == Some(ValueKind::Number) && v.data@
                == seq![2u8, 0, 0, 0]
        },
{
    assert(dword_bytes(8) =~= seq![8u8, 0, 0, 0]);
    assert(dword_bytes(2) =~= seq![2u8, 0, 0, 0]);
}

/// What is written is what makes a rule up to date, under the names by which the values are read.
pub proof fn law_written_values_are_named(rule: PolicyRule)
    requires
        is_current_rule(rule),
    ensures
        rule_content() == seq![
            (wide("DisplayName"@), ValueKind::Text, rule.display_name->0.data@),
            (wide("Name"@), ValueKind::TextList, rule.namespaces->0.data@),
            (wide("GenericDNSServers"@), ValueKind::Text, rule.servers->0.data@),
            (wide("ConfigOptions"@), ValueKind::Number, rule.options->0.data@),
            (wide("Version"@), ValueKind::Number, rule.version->0.data@),
        ],
{
}

/// The domains of the rule.
pub proof fn law_domains_of_the_rule(domain: Seq<char>)
    ensures
        namespaces().contains(domain) <==> {
            ||| domain == ".ir"@
            ||| domain == "digikala.com"@
            ||| domain == "torob.com"@
            ||| domain == "snapp.express"@
            ||| domain == "aparat.com"@
            ||| domain == "filimo.com"@
            ||| domain == "telewebion.com"@
            ||| domain == "eitaa.com"@
            ||| domain == "bale.ai"@
            ||| domain == "gap.im"@
            ||| domain == "neshan.org"@
            ||| domain == "basalam.com"@
            ||| domain == "snapptrip.com"@
            ||| domain == "sheypoor.com"@
            ||| domain == "cinematicket.org"@
            ||| domain == "tiwall.com"@
            ||| domain == "fidibo.com"@
            ||| domain == "taaghche.com"@
            ||| domain == "paziresh24.com"@
        },
        namespaces().len() == 19,
        namespaces()[0] == ".ir"@,
{
    let list: Seq<Seq<char>> = namespaces();
    assert(list[0] == ".ir"@);
    assert(list[1] == "digikala.com"@);
    assert(list[2] == "torob.com"@);
    assert(list[3] == "snapp.express"@);
    assert(list[4] == "aparat.com"@);
    assert(list[5] == "filimo.com"@);
    assert(list[6] == "telewebion.com"@);
    assert(list[7] == "eitaa.com"@);
    assert(list[8] == "bale.ai"@);
    assert(list[9] == "gap.im"@);
    assert(list[10] == "neshan.org"@);
    assert(list[11] == "basalam.com"@);
    assert(list[12] == "snapptrip.com"@);
    assert(list[13] == "sheypoor.com"@);
    assert(list[14] == "cinematicket.org"@);
    assert(list[15] == "tiwall.com"@);
    assert(list[16] == "fidibo.com"@);
    assert(list[17] == "taaghche.com"@);
    assert(list[18] == "paziresh24.com"@);
}

/// The parts of a value that contracts speak of are its fields.
pub proof fn law_registry_value_view(v: RegistryValue)
    ensures
        v@.0 == v.name@,
        v@.1 == v.kind,
        v@.2 == v.data@,
{
}

} // verus!
