//! The connectivity test: what is requested, how the answers are judged, and how they are shown.
use crate::decimal::{blank_padded, blank_padded_text, decimal, decimal_text};
use crate::order::{
    holds_position, is_stable_order, law_stable_order_sorts, ranks_before, stable_order,
};
use crate::text::{
    contains, contains_text, first_at, law_contains_iff_inside, law_split_once_is_leftmost,
    lemma_find_at, lemma_find_iff_contains, lemma_split_once_char, lemma_split_once_char_none,
    lines, lines_chars, rows, same_text, split_once, split_once_chars, texts, to_chars, to_text,
    trim, trim_chars, without, without_char, CharClass,
};
use crate::utf8::{from_utf8_lossy, utf8_lossy};
use vstd::prelude::*;
use vstd::utf8::{decode_utf8, valid_utf8};

verus! {

/// A site to request: its address, the label that it is shown under, and whether the request goes
/// through the tunnel.
pub struct Target {
    pub url: String,
    pub label: String,
    pub is_vpn: bool,
}

impl View for Target {
    type V = (Seq<char>, Seq<char>, bool);

    open spec fn view(&self) -> (Seq<char>, Seq<char>, bool) {
        (self.url@, self.label@, self.is_vpn)
    }
}

/// The sites of the test, in the order in which they are shown.
pub open spec fn target_list() -> Seq<(Seq<char>, Seq<char>, bool)> {
    seq![
        ("https://shaparak.ir"@, "Domestic Bank/Payment Gateway"@, false),
        ("https://digikala.com"@, "Domestic E-Commerce (.com)"@, false),
        ("https://divar.ir"@, "Domestic Classifieds (.ir)"@, false),
        ("https://ipinfo.io/json"@, "International VPN Endpoint"@, true),
    ]
}

/// The sites of the test.
pub fn targets() -> (r: Vec<Target>)
    ensures
        r@.map_values(|t: Target| t@) == target_list(),
{
    let out: Vec<Target> = vec![
        Target {
            url: "https://shaparak.ir".to_owned(),
            label: "Domestic Bank/Payment Gateway".to_owned(),
            is_vpn: false,
        },
        Target {
            url: "https://digikala.com".to_owned(),
            label: "Domestic E-Commerce (.com)".to_owned(),
            is_vpn: false,
        },
        Target {
            url: "https://divar.ir".to_owned(),
            label: "Domestic Classifieds (.ir)".to_owned(),
            is_vpn: false,
        },
        Target {
            url: "https://ipinfo.io/json".to_owned(),
            label: "International VPN Endpoint".to_owned(),
            is_vpn: true,
        },
    ];
    assert(out@.map_values(|t: Target| t@) =~= target_list());
    out
}

/// The arguments of the command that requests a site. The answer of a site behind the tunnel is
/// kept, with the metrics behind it; of the others only the metrics are.
pub open spec fn request_args(url: Seq<char>, is_vpn: bool) -> Seq<Seq<char>> {
    if is_vpn {
        seq!["-s"@, "-m"@, "5"@, "-w"@, "\n__METRICS__:%{http_code}:%{time_total}"@, url]
    } else {
        seq!["-s"@, "-m"@, "5"@, "-w"@, "%{http_code}:%{time_total}"@, "-o"@, "nul"@, url]
    }
}

/// The arguments of the command that requests a site.
pub fn curl_args(url: &str, is_vpn: bool) -> (r: Vec<String>)
    ensures
        texts(r@) == request_args(url@, is_vpn),
{
    let out: Vec<String> = if is_vpn {
        vec![
            "-s".to_owned(),
            "-m".to_owned(),
            "5".to_owned(),
            "-w".to_owned(),
            "\n__METRICS__:%{http_code}:%{time_total}".to_owned(),
            url.to_owned(),
        ]
    } else {
        vec![
            "-s".to_owned(),
            "-m".to_owned(),
            "5".to_owned(),
            "-w".to_owned(),
            "%{http_code}:%{time_total}".to_owned(),
            "-o".to_owned(),
            "nul".to_owned(),
            url.to_owned(),
        ]
    };
    assert(texts(out@) =~= request_args(url@, is_vpn));
    out
}

/// The outcome of one request.
pub struct TestResult {
    pub label: String,
    pub status: String,
    pub latency_ms: u128,
    pub extra: String,
    pub ok: bool,
}

/// The outcome of one request, with its texts as sequences.
pub struct Outcome {
    pub label: Seq<char>,
    pub status: Seq<char>,
    pub latency_ms: u128,
    pub extra: Seq<char>,
    pub ok: bool,
}

impl View for TestResult {
    type V = Outcome;

    open spec fn view(&self) -> Outcome {
        Outcome {
            label: self.label@,
            status: self.status@,
            latency_ms: self.latency_ms,
            extra: self.extra@,
            ok: self.ok,
        }
    }
}

/// The outcome of a request without an answer.
pub open spec fn unanswered(label: Seq<char>, status: Seq<char>, latency_ms: u128) -> Outcome {
    Outcome { label, status, latency_ms, extra: seq![], ok: false }
}

/// The first of the lines that holds `pat`.
pub open spec fn first_line_with(ls: Seq<Seq<char>>, pat: Seq<char>) -> Option<Seq<char>>
    decreases ls.len(),
{
    if ls.len() == 0 {
        None
    } else if contains(ls[0], pat) {
        Some(ls[0])
    } else {
        first_line_with(ls.skip(1), pat)
    }
}

/// What an answer tells under a key: the first line that holds the key, without quotes, commas and
/// the white space around it; nothing if there is no such line.
pub open spec fn field(body: Seq<char>, key: Seq<char>) -> Seq<char> {
    match first_line_with(lines(body), key) {
        Some(l) => trim(without(without(l, '"'), ','), CharClass::WhiteSpace),
        None => seq![],
    }
}

/// What is shown of the answer of a site behind the tunnel: its address, city and country.
pub open spec fn vpn_extra(body: Seq<char>) -> Seq<char> {
    field(body, "\"ip\":"@) + " ("@ + field(body, "\"city\":"@) + ", "@ + field(
        body,
        "\"country\":"@,
    ) + ")"@
}

/// How the output of a request is judged. The status is what stands before the first colon of the
/// metrics; without it the request timed out.
pub open spec fn judge(
    label: Seq<char>,
    is_vpn: bool,
    output: Seq<char>,
    latency_ms: u128,
) -> Outcome {
    let out: Seq<char> = trim(output, CharClass::WhiteSpace);
    if is_vpn {
        match split_once(out, "__METRICS__:"@) {
            Some((body, metrics)) => match split_once(metrics, seq![':']) {
                Some((code, rest)) => Outcome {
                    label,
                    status: code,
                    latency_ms,
                    extra: vpn_extra(body),
                    ok: code == "200"@,
                },
                None => unanswered(label, "Timeout"@, latency_ms),
            },
            None => unanswered(label, "Timeout"@, latency_ms),
        }
    } else {
        match split_once(out, seq![':']) {
            Some((code, rest)) => Outcome {
                label,
                status: code,
                latency_ms,
                extra: seq![],
                ok: code == "200"@ || code == "301"@ || code == "302"@,
            },
            None => unanswered(label, "Timeout"@, latency_ms),
        }
    }
}

/// Reads what an answer tells under a key.
pub fn read_field(body: &[char], key: &str) -> (r: String)
    ensures
        r@ == field(body@, key@),
{
    let ls: Vec<Vec<char>> = lines_chars(body);
    let ghost all: Seq<Seq<char>> = lines(body@);
    let mut i: usize = 0;
    assert(all.skip(0) =~= all);
    while i < ls.len()
        invariant
            i <= ls@.len(),
            all == rows(ls@),
            all == lines(body@),
            first_line_with(all, key@) == first_line_with(all.skip(i as int), key@),
        decreases ls@.len() - i,
    {
        assert(all.skip(i as int)[0] == ls@[i as int]@);
        assert(all.skip(i as int).skip(1) =~= all.skip(i + 1));
        if contains_text(ls[i].as_slice(), key) {
            let unquoted: Vec<char> = without_char(ls[i].as_slice(), '"');
            let bare: Vec<char> = without_char(unquoted.as_slice(), ',');
            return to_text(trim_chars(bare.as_slice(), CharClass::WhiteSpace));
        }
        i = i + 1;
    }
    let none: String = String::new();
    assert(none@ =~= seq![]);
    none
}

/// The outcome of a request without an answer.
fn no_answer(label: &str, status: &str, latency_ms: u128) -> (r: TestResult)
    ensures
        r@ == unanswered(label@, status@, latency_ms),
{
    let r: TestResult = TestResult {
        label: label.to_owned(),
        status: status.to_owned(),
        latency_ms,
        extra: String::new(),
        ok: false,
    };
    assert(r@.extra =~= seq![]);
    r
}

/// Judges the output of a request.
pub fn interpret_output(label: &str, is_vpn: bool, output: &str, latency_ms: u128) -> (r:
    TestResult)
    ensures
        r@ == judge(label@, is_vpn, output@, latency_ms),
{
    let chars: Vec<char> = to_chars(output);
    let out: &[char] = trim_chars(chars.as_slice(), CharClass::WhiteSpace);
    let colon: Vec<char> = vec![':'];
    assert(colon@ =~= seq![':']);
    if is_vpn {
        let marker: Vec<char> = to_chars("__METRICS__:");
        match split_once_chars(out, marker.as_slice()) {
            Some((body, metrics)) => match split_once_chars(metrics, colon.as_slice()) {
                Some((code, _)) => {
                    let status: String = to_text(code);
                    let mut extra: String = read_field(body, "\"ip\":");
                    extra.append(" (");
                    extra.append(read_field(body, "\"city\":").as_str());
                    extra.append(", ");
                    extra.append(read_field(body, "\"country\":").as_str());
                    extra.append(")");
                    assert(extra@ =~= vpn_extra(body@));
                    let ok: bool = same_text(status.as_str(), "200");
                    TestResult { label: label.to_owned(), status, latency_ms, extra, ok }
                },
                None => no_answer(label, "Timeout", latency_ms),
            },
            None => no_answer(label, "Timeout", latency_ms),
        }
    } else {
        match split_once_chars(out, colon.as_slice()) {
            Some((code, _)) => {
                let status: String = to_text(code);
                let ok: bool = same_text(status.as_str(), "200") || same_text(
                    status.as_str(),
                    "301",
                ) || same_text(status.as_str(), "302");
                let extra: String = String::new();
                assert(extra@ =~= seq![]);
                TestResult { label: label.to_owned(), status, latency_ms, extra, ok }
            },
            None => no_answer(label, "Timeout", latency_ms),
        }
    }
}

/// Judges a request from the bytes that the command wrote, or from its failure to run.
pub fn test_result(label: &str, is_vpn: bool, stdout: Option<&[u8]>, latency_ms: u128) -> (r:
    TestResult)
    ensures
        stdout is None ==> r@ == unanswered(label@, "Failed"@, latency_ms),
        stdout matches Some(b) ==> r@ == judge(label@, is_vpn, utf8_lossy(b@), latency_ms),
        stdout matches Some(b) ==> (valid_utf8(b@) ==> r@ == judge(
            label@,
            is_vpn,
            decode_utf8(b@),
            latency_ms,
        )),
{
    match stdout {
        Some(b) => interpret_output(label, is_vpn, from_utf8_lossy(b).as_str(), latency_ms),
        None => no_answer(label, "Failed", latency_ms),
    }
}

/// Where a label stands in the presentation.
pub open spec fn rank(label: Seq<char>) -> u32 {
    if label == "Domestic Bank/Payment Gateway"@ {
        0
    } else if label == "Domestic E-Commerce (.com)"@ {
        1
    } else if label == "Domestic Classifieds (.ir)"@ {
        2
    } else {
        3
    }
}

/// The ranks of a list of outcomes.
pub open spec fn ranks(results: Seq<Outcome>) -> Seq<u32> {
    results.map_values(|o: Outcome| rank(o.label))
}

/// The outcomes of a list of results.
pub open spec fn outcomes(results: Seq<TestResult>) -> Seq<Outcome> {
    results.map_values(|r: TestResult| r@)
}

/// `shown` holds the outcomes by rank, those with the same rank as they came in.
pub open spec fn is_presentation(results: Seq<Outcome>, shown: Seq<Outcome>) -> bool {
    exists|order: Seq<usize>| #[trigger]
        is_stable_order(ranks(results), order) && shown == Seq::new(
            results.len(),
            |i: int| results[order[i] as int],
        )
}

fn rank_of(label: &str) -> (r: u32)
    ensures
        r == rank(label@),
{
    if same_text(label, "Domestic Bank/Payment Gateway") {
        0
    } else if same_text(label, "Domestic E-Commerce (.com)") {
        1
    } else if same_text(label, "Domestic Classifieds (.ir)") {
        2
    } else {
        3
    }
}

/// Puts the results in the order in which they are shown, whatever the order in which they came in.
pub fn presentation_order(results: &[TestResult]) -> (r: Vec<TestResult>)
    ensures
        is_presentation(outcomes(results@), outcomes(r@)),
{
    let n: usize = results.len();
    let ghost all: Seq<Outcome> = outcomes(results@);
    let mut keys: Vec<u32> = Vec::new();
    let mut i: usize = 0;
    while i < n
        invariant
            i <= n,
            n == results@.len(),
            all == outcomes(results@),
            keys@.len() == i,
            forall|k: int| 0 <= k < i ==> keys@[k] == ranks(all)[k],
        decreases n - i,
    {
        keys.push(rank_of(results[i].label.as_str()));
        i = i + 1;
    }
    assert(keys@ =~= ranks(all));
    let order: Vec<usize> = stable_order(keys.as_slice());
    let mut out: Vec<TestResult> = Vec::new();
    let mut m: usize = 0;
    while m < n
        invariant
            m <= n,
            n == results@.len(),
            all == outcomes(results@),
            is_stable_order(ranks(all), order@),
            out@.len() == m,
            forall|k: int| 0 <= k < m ==> (#[trigger] out@[k])@ == all[order@[k] as int],
        decreases n - m,
    {
        let r: &TestResult = &results[order[m]];
        out.push(
            TestResult {
                label: r.label.clone(),
                status: r.status.clone(),
                latency_ms: r.latency_ms,
                extra: r.extra.clone(),
                ok: r.ok,
            },
        );
        m = m + 1;
    }
    assert(outcomes(out@) =~= Seq::new(all.len(), |j: int| all[order@[j] as int]));
    out
}

/// The line that shows an outcome: green or red, the label in a column of 32, what the answer
/// tells or else the status, and the latency.
pub open spec fn benchmark_text(o: Outcome) -> Seq<char> {
    let tag: Seq<char> = if o.ok {
        "\x1b[1;32m[OK]\x1b[0m"@
    } else {
        "\x1b[1;31m[FAIL]\x1b[0m"@
    };
    let told: Seq<char> = if o.extra.len() == 0 {
        "Status "@ + o.status
    } else {
        o.extra
    };
    "  "@ + tag + " "@ + blank_padded(o.label, 32) + ": "@ + told + " ("@ + decimal(
        o.latency_ms as nat,
    ) + "ms)"@
}

/// Writes the line that shows a result.
pub fn benchmark_line(r: &TestResult) -> (line: String)
    ensures
        line@ == benchmark_text(r@),
{
    let mut out: String = String::new();
    out.append("  ");
    if r.ok {
        out.append("\x1b[1;32m[OK]\x1b[0m");
    } else {
        out.append("\x1b[1;31m[FAIL]\x1b[0m");
    }
    out.append(" ");
    out.append(blank_padded_text(r.label.as_str(), 32).as_str());
    out.append(": ");
    if r.extra.as_str().is_empty() {
        out.append("Status ");
        out.append(r.status.as_str());
    } else {
        out.append(r.extra.as_str());
    }
    out.append(" (");
    out.append(decimal_text(r.latency_ms).as_str());
    out.append("ms)");
    assert(out@ =~= benchmark_text(r@));
    out
}

/// What follows a marker that stands first at `i`, and what precedes it.
proof fn lemma_split_once_at(s: Seq<char>, pat: Seq<char>, i: int)
    requires
        first_at(s, pat, i),
    ensures
        split_once(s, pat) == Some((s.take(i), s.skip(i + pat.len()))),
{
    lemma_find_at(s, pat, i);
}

/// Output that is a status, a colon and anything, with no white space at its ends, is judged by
/// that status: a domestic site is reached if it answers, or redirects, with success.
pub proof fn law_domestic_status(
    label: Seq<char>,
    code: Seq<char>,
    rest: Seq<char>,
    latency_ms: u128,
)
    requires
        !code.contains(':'),
        ({
            let out: Seq<char> = code + seq![':'] + rest;
            trim(out, CharClass::WhiteSpace) == out
        }),
    ensures
        ({
            let o: Outcome = judge(label, false, code + seq![':'] + rest, latency_ms);
            &&& o.label == label
            &&& o.status == code
            &&& o.latency_ms == latency_ms
            &&& o.extra.len() == 0
            &&& o.ok <==> code == "200"@ || code == "301"@ || code == "302"@
        }),
{
    lemma_split_once_char(code, ':', rest);
}

/// Output that is an answer, the first marker, a status, a colon and anything, with no white space
/// at its ends, is judged by that status and shown with what the answer tells.
pub proof fn law_vpn_status(
    label: Seq<char>,
    body: Seq<char>,
    code: Seq<char>,
    rest: Seq<char>,
    latency_ms: u128,
)
    requires
        !code.contains(':'),
        ({
            let out: Seq<char> = body + "__METRICS__:"@ + (code + seq![':'] + rest);
            trim(out, CharClass::WhiteSpace) == out && first_at(out, "__METRICS__:"@, body.len() as int)
        }),
    ensures
        ({
            let out: Seq<char> = body + "__METRICS__:"@ + (code + seq![':'] + rest);
            judge(label, true, out, latency_ms) == (Outcome {
                label,
                status: code,
                latency_ms,
                extra: vpn_extra(body),
                ok: code == "200"@,
            })
        }),
{
    let marker: Seq<char> = "__METRICS__:"@;
    let metrics: Seq<char> = code + seq![':'] + rest;
    let out: Seq<char> = body + marker + metrics;
    lemma_split_once_at(out, marker, body.len() as int);
    assert(out.take(body.len() as int) =~= body);
    assert(out.skip(body.len() as int + marker.len()) =~= metrics);
    lemma_split_once_char(code, ':', rest);
}

/// A request is a success only with one of the three statuses that count as one; of a site behind
/// the tunnel only with status 200.
pub proof fn law_success_needs_status(
    label: Seq<char>,
    is_vpn: bool,
    output: Seq<char>,
    latency_ms: u128,
)
    ensures
        ({
            let o: Outcome = judge(label, is_vpn, output, latency_ms);
            &&& o.ok ==> o.status == "200"@ || (!is_vpn && (o.status == "301"@ || o.status
                == "302"@))
            &&& o.label == label && o.latency_ms == latency_ms
        }),
{
}

/// Ranks rise strictly along the list.
spec fn strictly_ranked(s: Seq<Outcome>) -> bool {
    forall|i: int, j: int| 0 <= i < j < s.len() ==> rank(#[trigger] s[i].label) < rank(#[trigger] s[j].label)
}

proof fn lemma_strictly_ranked_unique(p: Seq<Outcome>, q: Seq<Outcome>)
    requires
        strictly_ranked(p),
        strictly_ranked(q),
        forall|x: Outcome| p.contains(x) <==> q.contains(x),
    ensures
        p == q,
    decreases p.len(),
{
    if p.len() == 0 {
        if q.len() > 0 {
            assert(q.contains(q[0]));
        }
        assert(p =~= q);
    } else {
        assert(p.contains(p[0]));
        let m: int = p.len() - 1;
        let n: int = q.len() - 1;
        assert(p.contains(p[m]));
        let k: int = choose|k: int| 0 <= k < q.len() && q[k] == p[m];
        assert(q.contains(q[n]));
        let l: int = choose|l: int| 0 <= l < p.len() && p[l] == q[n];
        if k < n {
            assert(rank(q[k].label) < rank(q[n].label));
            if l < m {
                assert(rank(p[l].label) < rank(p[m].label));
            }
        }
        assert(p[m] == q[n]);
        let p0: Seq<Outcome> = p.drop_last();
        let q0: Seq<Outcome> = q.drop_last();
        assert forall|x: Outcome| p0.contains(x) <==> q0.contains(x) by {
            if p0.contains(x) {
                let i: int = choose|i: int| 0 <= i < p0.len() && p0[i] == x;
                assert(p[i] == x);
                assert(p.contains(x));
                assert(rank(p[i].label) < rank(p[m].label));
                let j: int = choose|j: int| 0 <= j < q.len() && q[j] == x;
                assert(j < n);
                assert(q0[j] == x);
            }
            if q0.contains(x) {
                let i: int = choose|i: int| 0 <= i < q0.len() && q0[i] == x;
                assert(q[i] == x);
                assert(q.contains(x));
                assert(rank(q[i].label) < rank(q[n].label));
                let j: int = choose|j: int| 0 <= j < p.len() && p[j] == x;
                assert(j < m);
                assert(p0[j] == x);
            }
        }
        assert forall|i: int, j: int| 0 <= i < j < p0.len() implies rank(#[trigger] p0[i].label)
            < rank(#[trigger] p0[j].label) by {
            assert(rank(p[i].label) < rank(p[j].label));
        }
        assert forall|i: int, j: int| 0 <= i < j < q0.len() implies rank(#[trigger] q0[i].label)
            < rank(#[trigger] q0[j].label) by {
            assert(rank(q[i].label) < rank(q[j].label));
        }
        lemma_strictly_ranked_unique(p0, q0);
        assert(p =~= p0.push(p[m]));
        assert(q =~= q0.push(q[n]));
    }
}

/// No two of the outcomes have the same rank.
pub open spec fn ranks_differ(results: Seq<Outcome>) -> bool {
    forall|i: int, j: int|
        0 <= i < results.len() && 0 <= j < results.len() && i != j ==> rank(
            #[trigger] results[i].label,
        ) != rank(#[trigger] results[j].label)
}

proof fn lemma_presentation(results: Seq<Outcome>, shown: Seq<Outcome>)
    requires
        is_presentation(results, shown),
    ensures
        ranks_differ(results) ==> strictly_ranked(shown),
        forall|x: Outcome| results.contains(x) <==> shown.contains(x),
{
    let order: Seq<usize> = choose|order: Seq<usize>| #[trigger]
        is_stable_order(ranks(results), order) && shown == Seq::new(
            results.len(),
            |i: int| results[order[i] as int],
        );
    let keys: Seq<u32> = ranks(results);
    if ranks_differ(results) {
        assert forall|i: int, j: int| 0 <= i < j < shown.len() implies rank(#[trigger] shown[i].label)
            < rank(#[trigger] shown[j].label) by {
            assert(ranks_before(keys, order[i] as int, order[j] as int));
            assert(shown[i] == results[order[i] as int]);
            assert(shown[j] == results[order[j] as int]);
            assert(rank(results[order[i] as int].label) != rank(results[order[j] as int].label));
        }
    }
    assert forall|x: Outcome| results.contains(x) <==> shown.contains(x) by {
        if results.contains(x) {
            let k: int = choose|k: int| 0 <= k < results.len() && results[k] == x;
            assert(keys.len() == results.len());
            assert(holds_position(order, k));
            let i: int = choose|i: int| 0 <= i < order.len() && #[trigger] order[i] == k;
            assert(shown[i] == x);
        }
        if shown.contains(x) {
            let i: int = choose|i: int| 0 <= i < shown.len() && shown[i] == x;
            assert(results[order[i] as int] == x);
        }
    }
}

/// Where no two outcomes share a rank, what is shown does not depend on the order in which the
/// outcomes came in.
pub proof fn law_presentation_ignores_arrival(
    first: Seq<Outcome>,
    second: Seq<Outcome>,
    shown_first: Seq<Outcome>,
    shown_second: Seq<Outcome>,
)
    requires
        ranks_differ(first),
        ranks_differ(second),
        forall|x: Outcome| first.contains(x) <==> second.contains(x),
        is_presentation(first, shown_first),
        is_presentation(second, shown_second),
    ensures
        shown_first == shown_second,
{
    lemma_presentation(first, shown_first);
    lemma_presentation(second, shown_second);
    assert forall|x: Outcome| shown_first.contains(x) <==> shown_second.contains(x) by {
        assert(first.contains(x) <==> second.contains(x));
    }
    lemma_strictly_ranked_unique(shown_first, shown_second);
}

/// The four sites have the ranks zero to three, in the order of the list: they are shown in that
/// order.
pub proof fn law_targets_in_presentation_order()
    ensures
        forall|i: int| 0 <= i < target_list().len() ==> rank((#[trigger] target_list()[i]).1) == i,
{
    reveal_strlit("Domestic Bank/Payment Gateway");
    reveal_strlit("Domestic E-Commerce (.com)");
    reveal_strlit("Domestic Classifieds (.ir)");
    reveal_strlit("International VPN Endpoint");
    let bank: Seq<char> = "Domestic Bank/Payment Gateway"@;
    let shop: Seq<char> = "Domestic E-Commerce (.com)"@;
    let ads: Seq<char> = "Domestic Classifieds (.ir)"@;
    let vpn: Seq<char> = "International VPN Endpoint"@;
    assert(bank[9] == 'B' && shop[9] == 'E' && ads[9] == 'C' && vpn[0] == 'I');
    assert(bank[0] == 'D' && shop[0] == 'D' && ads[0] == 'D');
}

/// The line of an outcome starts with the green tag if and only if the outcome is a success, and
/// with the red one otherwise, whatever its status and whatever the answer tells.
pub proof fn law_line_is_green_iff_ok(o: Outcome)
    ensures
        o.ok <==> "  \x1b[1;32m[OK]\x1b[0m "@.is_prefix_of(benchmark_text(o)),
        !o.ok <==> "  \x1b[1;31m[FAIL]\x1b[0m "@.is_prefix_of(benchmark_text(o)),
{
    reveal_strlit("  ");
    reveal_strlit(" ");
    reveal_strlit("\x1b[1;32m[OK]\x1b[0m");
    reveal_strlit("\x1b[1;31m[FAIL]\x1b[0m");
    reveal_strlit("  \x1b[1;32m[OK]\x1b[0m ");
    reveal_strlit("  \x1b[1;31m[FAIL]\x1b[0m ");
    let good: Seq<char> = "  \x1b[1;32m[OK]\x1b[0m "@;
    let bad: Seq<char> = "  \x1b[1;31m[FAIL]\x1b[0m "@;
    let line: Seq<char> = benchmark_text(o);
    if o.ok {
        assert("  "@ + "\x1b[1;32m[OK]\x1b[0m"@ + " "@ =~= good);
        assert(line.subrange(0, good.len() as int) =~= good);
        assert(line[7] == good[7]);
        if bad.is_prefix_of(line) {
            assert(line.subrange(0, bad.len() as int)[7] == bad[7]);
        }
    } else {
        assert("  "@ + "\x1b[1;31m[FAIL]\x1b[0m"@ + " "@ =~= bad);
        assert(line.subrange(0, bad.len() as int) =~= bad);
        assert(line[7] == bad[7]);
        if good.is_prefix_of(line) {
            assert(line.subrange(0, good.len() as int)[7] == good[7]);
        }
    }
}

/// Behind its tag, the line of an outcome shows the label in a column of 32, what the answer tells,
/// or the status where it tells nothing, and the latency.
pub proof fn law_line_shows_outcome(o: Outcome)
    ensures
        ({
            let tag: Seq<char> = if o.ok {
                "\x1b[1;32m[OK]\x1b[0m"@
            } else {
                "\x1b[1;31m[FAIL]\x1b[0m"@
            };
            let head: Seq<char> = "  "@ + tag + " "@ + blank_padded(o.label, 32) + ": "@;
            let tail: Seq<char> = " ("@ + decimal(o.latency_ms as nat) + "ms)"@;
            &&& o.extra.len() > 0 ==> benchmark_text(o) == head + o.extra + tail
            &&& o.extra.len() == 0 ==> benchmark_text(o) == head + ("Status "@ + o.status) + tail
        }),
{
    let tag: Seq<char> = if o.ok {
        "\x1b[1;32m[OK]\x1b[0m"@
    } else {
        "\x1b[1;31m[FAIL]\x1b[0m"@
    };
    let head: Seq<char> = "  "@ + tag + " "@ + blank_padded(o.label, 32) + ": "@;
    let tail: Seq<char> = " ("@ + decimal(o.latency_ms as nat) + "ms)"@;
    let told: Seq<char> = if o.extra.len() == 0 {
        "Status "@ + o.status
    } else {
        o.extra
    };
    assert(benchmark_text(o) =~= head + told + tail);
}

/// A site whose status is none of the three that count as a success is shown in red, and so is one
/// behind the tunnel whose status is not 200.
pub proof fn law_other_status_is_shown_red(
    label: Seq<char>,
    is_vpn: bool,
    output: Seq<char>,
    latency_ms: u128,
)
    requires
        ({
            let status: Seq<char> = judge(label, is_vpn, output, latency_ms).status;
            status != "200"@ && (is_vpn || (status != "301"@ && status != "302"@))
        }),
    ensures
        "  \x1b[1;31m[FAIL]\x1b[0m "@.is_prefix_of(
            benchmark_text(judge(label, is_vpn, output, latency_ms)),
        ),
{
    law_success_needs_status(label, is_vpn, output, latency_ms);
    law_line_is_green_iff_ok(judge(label, is_vpn, output, latency_ms));
}

/// The output of a domestic site, without the white space around it, is judged by what stands before
/// its first colon; output without a colon is that of a request that timed out.
pub proof fn law_domestic_output_is_judged(
    label: Seq<char>,
    output: Seq<char>,
    code: Seq<char>,
    rest: Seq<char>,
    latency_ms: u128,
)
    requires
        !code.contains(':'),
    ensures
        trim(output, CharClass::WhiteSpace) == code + seq![':'] + rest ==> judge(
            label,
            false,
            output,
            latency_ms,
        ) == (Outcome {
            label,
            status: code,
            latency_ms,
            extra: Seq::empty(),
            ok: code == "200"@ || code == "301"@ || code == "302"@,
        }),
        trim(output, CharClass::WhiteSpace) == code ==> judge(label, false, output, latency_ms) == (
        Outcome { label, status: "Timeout"@, latency_ms, extra: Seq::empty(), ok: false }),
{
    lemma_split_once_char(code, ':', rest);
    lemma_split_once_char_none(code, ':');
    let none: Seq<char> = seq![];
    assert(none =~= Seq::empty());
}

/// The output of a site behind the tunnel, without the white space around it, is an answer and, from
/// the first marker on, metrics. It is judged by what stands before the first colon of the metrics,
/// and shown with the address, city and country that the answer tells; without a marker, or a colon
/// behind it, the request timed out.
pub proof fn law_vpn_output_is_judged(
    label: Seq<char>,
    output: Seq<char>,
    body: Seq<char>,
    metrics: Seq<char>,
    code: Seq<char>,
    rest: Seq<char>,
    latency_ms: u128,
)
    requires
        !code.contains(':'),
    ensures
        ({
            let out: Seq<char> = trim(output, CharClass::WhiteSpace);
            let late: Outcome = Outcome {
                label,
                status: "Timeout"@,
                latency_ms,
                extra: Seq::empty(),
                ok: false,
            };
            let cut: bool = out == body + "__METRICS__:"@ + metrics && forall|x: Seq<char>, y: Seq<char>|
                #[trigger] (x + "__METRICS__:"@ + y) == out ==> body.len() <= x.len();
            &&& !contains(out, "__METRICS__:"@) ==> judge(label, true, output, latency_ms) == late
            &&& cut && metrics == code ==> judge(label, true, output, latency_ms) == late
            &&& cut && metrics == code + seq![':'] + rest ==> judge(
                label,
                true,
                output,
                latency_ms,
            ) == (Outcome {
                label,
                status: code,
                latency_ms,
                extra: field(body, "\"ip\":"@) + " ("@ + field(body, "\"city\":"@) + ", "@ + field(
                    body,
                    "\"country\":"@,
                ) + ")"@,
                ok: code == "200"@,
            })
        }),
{
    let out: Seq<char> = trim(output, CharClass::WhiteSpace);
    let marker: Seq<char> = "__METRICS__:"@;
    let none: Seq<char> = seq![];
    assert(none =~= Seq::empty());
    lemma_find_iff_contains(out, marker);
    lemma_split_once_char(code, ':', rest);
    lemma_split_once_char_none(code, ':');
    let cut: bool = out == body + marker + metrics && forall|x: Seq<char>, y: Seq<char>|
        #[trigger] (x + marker + y) == out ==> body.len() <= x.len();
    if cut {
        law_split_once_is_leftmost(out, marker);
        law_contains_iff_inside(out, marker);
        let (a, b) = split_once(out, marker)->0;
        assert(a + marker + b == out);
        assert(body + marker + metrics == out);
        assert(a.len() == body.len());
        assert(out.take(a.len() as int) =~= a);
        assert(out.take(a.len() as int) =~= body);
        assert(out.skip(a.len() as int + marker.len()) =~= b);
        assert(out.skip(a.len() as int + marker.len()) =~= metrics);
    }
}

proof fn lemma_first_line_with(ls: Seq<Seq<char>>, pat: Seq<char>, i: int)
    requires
        0 <= i < ls.len(),
        contains(ls[i], pat),
        forall|k: int| 0 <= k < i ==> !contains(#[trigger] ls[k], pat),
    ensures
        first_line_with(ls, pat) == Some(ls[i]),
    decreases i,
{
    if i > 0 {
        assert(!contains(ls[0], pat));
        let tail: Seq<Seq<char>> = ls.skip(1);
        assert(tail[i - 1] == ls[i]);
        assert forall|k: int| 0 <= k < i - 1 implies !contains(#[trigger] tail[k], pat) by {
            assert(!contains(ls[k + 1], pat));
        }
        lemma_first_line_with(tail, pat, i - 1);
    }
}

proof fn lemma_no_line_with(ls: Seq<Seq<char>>, pat: Seq<char>)
    requires
        forall|k: int| 0 <= k < ls.len() ==> !contains(#[trigger] ls[k], pat),
    ensures
        first_line_with(ls, pat) is None,
    decreases ls.len(),
{
    if ls.len() > 0 {
        assert(!contains(ls[0], pat));
        let tail: Seq<Seq<char>> = ls.skip(1);
        assert forall|k: int| 0 <= k < tail.len() implies !contains(#[trigger] tail[k], pat) by {
            assert(!contains(ls[k + 1], pat));
        }
        lemma_no_line_with(tail, pat);
    }
}

/// What an answer tells under a key comes from the first line with that key: that line without
/// quotes, commas, and the white space then around it. Where no line has the key, it tells nothing.
pub proof fn law_field_is_first_line_with_key(body: Seq<char>, key: Seq<char>, i: int)
    ensures
        0 <= i < lines(body).len() && contains(lines(body)[i], key) && (forall|k: int|
            0 <= k < i ==> !contains(#[trigger] lines(body)[k], key)) ==> field(body, key) == trim(
            without(without(lines(body)[i], '"'), ','),
            CharClass::WhiteSpace,
        ),
        (forall|k: int| 0 <= k < lines(body).len() ==> !contains(#[trigger] lines(body)[k], key))
            ==> field(body, key) == Seq::<char>::empty(),
{
    let ls: Seq<Seq<char>> = lines(body);
    let none: Seq<char> = seq![];
    assert(none =~= Seq::empty());
    if 0 <= i < ls.len() && contains(ls[i], key) && (forall|k: int|
        0 <= k < i ==> !contains(#[trigger] ls[k], key)) {
        lemma_first_line_with(ls, key, i);
    }
    if forall|k: int| 0 <= k < ls.len() ==> !contains(#[trigger] ls[k], key) {
        lemma_no_line_with(ls, key);
    }
}

/// Every request is quiet, gives up after five seconds and ends with the address. Only that of a
/// site behind the tunnel keeps the answer, and writes the marker before the metrics.
pub proof fn law_request_ends_with_address(url: Seq<char>, is_vpn: bool)
    ensures
        ({
            let args: Seq<Seq<char>> = request_args(url, is_vpn);
            &&& args.len() == (if is_vpn {
                6int
            } else {
                8int
            })
            &&& args.last() == url
            &&& args[0] == "-s"@ && args[1] == "-m"@ && args[2] == "5"@ && args[3] == "-w"@
            &&& is_vpn ==> args[4] == "\n__METRICS__:%{http_code}:%{time_total}"@
            &&& !is_vpn ==> args[4] == "%{http_code}:%{time_total}"@ && args[5] == "-o"@ && args[6]
                == "nul"@
        }),
{
}

/// The sites of the test: three domestic ones, and one behind the tunnel.
pub proof fn law_sites_of_the_test(url: Seq<char>, label: Seq<char>, is_vpn: bool)
    ensures
        target_list().contains((url, label, is_vpn)) <==> {
            ||| url == "https://shaparak.ir"@ && label == "Domestic Bank/Payment Gateway"@ && !is_vpn
            ||| url == "https://digikala.com"@ && label == "Domestic E-Commerce (.com)"@ && !is_vpn
            ||| url == "https://divar.ir"@ && label == "Domestic Classifieds (.ir)"@ && !is_vpn
            ||| url == "https://ipinfo.io/json"@ && label == "International VPN Endpoint"@ && is_vpn
        },
        target_list().len() == 4,
{
    let list: Seq<(Seq<char>, Seq<char>, bool)> = target_list();
    assert(list[0] == ("https://shaparak.ir"@, "Domestic Bank/Payment Gateway"@, false));
    assert(list[1] == ("https://digikala.com"@, "Domestic E-Commerce (.com)"@, false));
    assert(list[2] == ("https://divar.ir"@, "Domestic Classifieds (.ir)"@, false));
    assert(list[3] == ("https://ipinfo.io/json"@, "International VPN Endpoint"@, true));
}

/// What is shown are the results, each once; the bank comes before all others, then the shop, then
/// the classifieds, and the rest come last; results with the same label stay as they came in, and so
/// do all that come last.
pub proof fn law_presentation_goes_by_label(results: Seq<Outcome>, shown: Seq<Outcome>)
    requires
        is_presentation(results, shown),
    ensures
        shown.len() == results.len(),
        forall|i: int, j: int|
            0 <= i < j < shown.len() ==> {
                let (x, y) = ((#[trigger] shown[i]).label, (#[trigger] shown[j]).label);
                &&& y == "Domestic Bank/Payment Gateway"@ ==> x == y
                &&& y == "Domestic E-Commerce (.com)"@ ==> x == y || x == "Domestic Bank/Payment Gateway"@
                &&& y == "Domestic Classifieds (.ir)"@ ==> x == y || x == "Domestic Bank/Payment Gateway"@ || x == "Domestic E-Commerce (.com)"@
            },
        exists|order: Seq<usize>|
            {
                &&& order.len() == results.len()
                &&& forall|i: int|
                    0 <= i < shown.len() ==> #[trigger] order[i] < results.len() && shown[i]
                        == results[order[i] as int]
                &&& forall|i: int, j: int|
                    0 <= i < j < shown.len() ==> #[trigger] order[i] != #[trigger] order[j]
                &&& forall|i: int, j: int|
                    0 <= i < j < shown.len() && shown[i].label == shown[j].label
                        ==> #[trigger] order[i] < #[trigger] order[j]
                &&& forall|i: int, j: int|
                    0 <= i < j < shown.len() && shown[i].label
                        != "Domestic Bank/Payment Gateway"@ && shown[i].label
                        != "Domestic E-Commerce (.com)"@ && shown[i].label
                        != "Domestic Classifieds (.ir)"@ && shown[j].label
                        != "Domestic Bank/Payment Gateway"@ && shown[j].label
                        != "Domestic E-Commerce (.com)"@ && shown[j].label
                        != "Domestic Classifieds (.ir)"@ ==> #[trigger] order[i] < #[trigger] order[j]
            },
{
    reveal_strlit("Domestic Bank/Payment Gateway");
    reveal_strlit("Domestic E-Commerce (.com)");
    reveal_strlit("Domestic Classifieds (.ir)");
    let bank: Seq<char> = "Domestic Bank/Payment Gateway"@;
    let shop: Seq<char> = "Domestic E-Commerce (.com)"@;
    let ads: Seq<char> = "Domestic Classifieds (.ir)"@;
    assert(bank[9] == 'B' && shop[9] == 'E' && ads[9] == 'C');
    let order: Seq<usize> = choose|order: Seq<usize>| #[trigger]
        is_stable_order(ranks(results), order) && shown == Seq::new(
            results.len(),
            |i: int| results[order[i] as int],
        );
    let keys: Seq<u32> = ranks(results);
    law_stable_order_sorts(keys, order);
    assert(keys.len() == results.len());
    assert forall|i: int, j: int| 0 <= i < j < shown.len() implies {
        let (x, y) = ((#[trigger] shown[i]).label, (#[trigger] shown[j]).label);
        &&& y == bank ==> x == y
        &&& y == shop ==> x == y || x == bank
        &&& y == ads ==> x == y || x == bank || x == shop
    } by {
        assert(keys[order[i] as int] <= keys[order[j] as int]);
        assert(keys[order[i] as int] == rank(shown[i].label));
        assert(keys[order[j] as int] == rank(shown[j].label));
    }
    assert forall|i: int, j: int|
        0 <= i < j < shown.len() && shown[i].label
            == shown[j].label implies #[trigger] order[i] < #[trigger] order[j] by {
        assert(keys[order[i] as int] == rank(shown[i].label));
        assert(keys[order[j] as int] == rank(shown[j].label));
    }
    assert forall|i: int, j: int|
        0 <= i < j < shown.len() && shown[i].label != bank && shown[i].label != shop
            && shown[i].label != ads && shown[j].label != bank && shown[j].label != shop
            && shown[j].label != ads implies #[trigger] order[i] < #[trigger] order[j] by {
        assert(keys[order[i] as int] == rank(shown[i].label));
        assert(keys[order[j] as int] == rank(shown[j].label));
    }
}

/// A request that did not run failed: it has no answer and is no success.
pub proof fn law_unanswered_is_no_success(label: Seq<char>, status: Seq<char>, latency_ms: u128)
    ensures
        unanswered(label, status, latency_ms) == (Outcome {
            label,
            status,
            latency_ms,
            extra: Seq::empty(),
            ok: false,
        }),
{
    let none: Seq<char> = seq![];
    assert(none =~= Seq::empty());
}

/// The parts of a result and of a site that contracts speak of are their fields.
pub proof fn law_result_view(r: TestResult, t: Target)
    ensures
        r@.label == r.label@,
        r@.status == r.status@,
        r@.latency_ms == r.latency_ms,
        r@.extra == r.extra@,
        r@.ok == r.ok,
        t@ == (t.url@, t.label@, t.is_vpn),
{
}

} // verus!
