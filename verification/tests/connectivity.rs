use iran_route::connectivity::{
    benchmark_line, curl_args, interpret_output, presentation_order, read_field, targets,
    test_result, TestResult,
};
use iran_route::text::to_chars;

const ANSWER: &str = "{\n  \"ip\": \"37.120.146.81\",\n  \"city\": \"Frankfurt am Main\",\n  \"region\": \"Hesse\",\n  \"country\": \"DE\"\n}\n__METRICS__:200:0.621";

fn result(label: &str, ok: bool, status: &str, extra: &str, latency_ms: u128) -> TestResult {
    TestResult {
        label: label.to_string(),
        status: status.to_string(),
        latency_ms,
        extra: extra.to_string(),
        ok,
    }
}

#[test]
fn four_sites_are_tested() {
    let t = targets();
    let urls: Vec<&str> = t.iter().map(|t| t.url.as_str()).collect();
    assert_eq!(
        urls,
        vec![
            "https://shaparak.ir",
            "https://digikala.com",
            "https://divar.ir",
            "https://ipinfo.io/json"
        ]
    );
    let vpn: Vec<bool> = t.iter().map(|t| t.is_vpn).collect();
    assert_eq!(vpn, vec![false, false, false, true]);
}

#[test]
fn requests_keep_the_answer_of_the_tunnel_alone() {
    assert_eq!(
        curl_args("u", false),
        vec!["-s", "-m", "5", "-w", "%{http_code}:%{time_total}", "-o", "nul", "u"]
    );
    assert_eq!(
        curl_args("u", true),
        vec!["-s", "-m", "5", "-w", "\n__METRICS__:%{http_code}:%{time_total}", "u"]
    );
}

#[test]
fn domestic_answers_are_judged_by_status() {
    for (out, status, ok) in [
        ("200:0.362", "200", true),
        ("301:0.245\n", "301", true),
        ("302:1", "302", true),
        ("404:0.1", "404", false),
        ("000:5.0", "000", false),
        (":", "", false),
        ("200", "Timeout", false),
        ("", "Timeout", false),
    ] {
        let r = interpret_output("site", false, out, 7);
        assert_eq!((r.label.as_str(), r.status.as_str(), r.ok), ("site", status, ok));
        assert_eq!((r.extra.as_str(), r.latency_ms), ("", 7));
    }
}

#[test]
fn tunnel_answers_are_shown_with_their_place() {
    let r = interpret_output("vpn", true, ANSWER, 621);
    assert_eq!(r.status, "200");
    assert!(r.ok);
    assert_eq!(r.extra, "ip: 37.120.146.81 (city: Frankfurt am Main, country: DE)");
}

#[test]
fn tunnel_answers_without_metrics_time_out() {
    for out in ["", "200:0.1", "{}\n__METRICS__:200"] {
        let r = interpret_output("vpn", true, out, 5000);
        assert_eq!((r.status.as_str(), r.ok, r.extra.as_str()), ("Timeout", false, ""));
    }
    let r = interpret_output("vpn", true, "__METRICS__:301:0.1", 1);
    assert_eq!((r.status.as_str(), r.ok, r.extra.as_str()), ("301", false, " (, )"));
}

#[test]
fn fields_come_from_the_first_line_that_names_them() {
    let body = to_chars("{\n \"city\": \"A\",\n \"city\": \"B\"\n}");
    assert_eq!(read_field(&body, "\"city\":"), "city: A");
    assert_eq!(read_field(&body, "\"ip\":"), "");
}

#[test]
fn output_is_read_as_text() {
    let r = test_result("s", false, Some(b" 200:0.1\r\n"), 3);
    assert_eq!((r.status.as_str(), r.ok), ("200", true));
    let r = test_result("s", false, Some(b"2\xff0:1"), 3);
    assert_eq!((r.status.as_str(), r.ok), ("2\u{fffd}0", false));
    let r = test_result("s", false, Some("é:1".as_bytes()), 3);
    assert_eq!(r.status, "é");
    let r = test_result("s", true, None, 3);
    assert_eq!((r.status.as_str(), r.ok, r.latency_ms), ("Failed", false, 3));
}

#[test]
fn presentation_does_not_depend_on_arrival() {
    let labels: Vec<String> = targets().into_iter().map(|t| t.label).collect();
    for order in [[3, 1, 0, 2], [2, 3, 1, 0], [0, 1, 2, 3], [3, 2, 1, 0]] {
        let arrived: Vec<TestResult> =
            order.iter().map(|i| result(&labels[*i], true, "200", "", *i as u128)).collect();
        let shown: Vec<String> =
            presentation_order(&arrived).into_iter().map(|r| r.label).collect();
        assert_eq!(shown, labels);
    }
}

#[test]
fn unknown_labels_come_last_as_they_arrived() {
    let arrived = vec![
        result("b", true, "", "", 0),
        result("a", true, "", "", 1),
        result("Domestic Classifieds (.ir)", true, "", "", 2),
    ];
    let shown: Vec<u128> =
        presentation_order(&arrived).into_iter().map(|r| r.latency_ms).collect();
    assert_eq!(shown, vec![2, 0, 1]);
}

#[test]
fn results_are_shown_in_columns() {
    assert_eq!(
        benchmark_line(&result("Domestic Bank/Payment Gateway", true, "200", "", 362)),
        "  \x1b[1;32m[OK]\x1b[0m Domestic Bank/Payment Gateway   : Status 200 (362ms)"
    );
    assert_eq!(
        benchmark_line(&result("International VPN Endpoint", true, "200", "ip: 1.2.3.4", 621)),
        "  \x1b[1;32m[OK]\x1b[0m International VPN Endpoint      : ip: 1.2.3.4 (621ms)"
    );
    assert_eq!(
        benchmark_line(&result("x", false, "Timeout", "", 0)),
        format!("  \x1b[1;31m[FAIL]\x1b[0m {:<32}: Status Timeout (0ms)", "x")
    );
}
