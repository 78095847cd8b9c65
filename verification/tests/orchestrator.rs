use netpulse::fleet::{check_label, CheckItem};
use netpulse::orchestrator::{aggregate_check_results, aggregate_ip_results, CheckOutcome, IpProbeResult};

fn probe(ip: &str, success: bool) -> IpProbeResult {
    IpProbeResult { ip: ip.to_string(), success }
}

#[test]
fn or_semantics_one_success_is_healthy() {
    // ip1 succeeds, ip2 fails => the check is healthy, and the failed list
    // still carries exactly the address that failed.
    let results = vec![probe("10.0.0.1", true), probe("10.0.0.2", false)];
    let (healthy, failed) = aggregate_ip_results(&results);
    assert!(healthy);
    assert_eq!(failed, vec!["10.0.0.2".to_string()]);
}

#[test]
fn or_semantics_order_independent() {
    // The same probes in the other completion order: same health, same
    // failed addresses.
    let a = vec![probe("10.0.0.1", true), probe("10.0.0.2", false)];
    let b = vec![probe("10.0.0.2", false), probe("10.0.0.1", true)];
    let (ha, fa) = aggregate_ip_results(&a);
    let (hb, fb) = aggregate_ip_results(&b);
    assert_eq!(ha, hb);
    assert_eq!(fa, fb);
}

#[test]
fn or_semantics_all_fail() {
    let results = vec![probe("10.0.0.1", false), probe("10.0.0.2", false)];
    let (healthy, failed) = aggregate_ip_results(&results);
    assert!(!healthy);
    assert_eq!(failed, vec!["10.0.0.1".to_string(), "10.0.0.2".to_string()]);
}

fn outcome(name: &str, port: u16, healthy: bool, failed: &[&str]) -> CheckOutcome {
    CheckOutcome {
        check: CheckItem { port, name: name.to_string() },
        healthy,
        failed_ips: failed.iter().map(|s| s.to_string()).collect(),
    }
}

#[test]
fn and_semantics_one_failing_check_fails_device() {
    // Check A healthy, check B failing => the device verdict is failing and
    // the failure list holds exactly one entry, for B.
    let outcomes = vec![
        outcome("ssh", 22, true, &[]),
        outcome("web", 80, false, &["10.0.0.1", "10.0.0.2"]),
    ];
    let (healthy, failures) = aggregate_check_results(&outcomes);
    assert!(!healthy);
    assert_eq!(failures.len(), 1);
    assert_eq!(failures[0].check_name, "web");
    assert_eq!(failures[0].port, 80);
    assert_eq!(
        failures[0].attempted_ips,
        vec!["10.0.0.1".to_string(), "10.0.0.2".to_string()]
    );
}

#[test]
fn and_semantics_all_healthy() {
    let outcomes = vec![outcome("ssh", 22, true, &[]), outcome("web", 80, true, &[])];
    let (healthy, failures) = aggregate_check_results(&outcomes);
    assert!(healthy);
    assert!(failures.is_empty());
}

#[test]
fn unnamed_check_gets_port_label() {
    let outcomes = vec![outcome("", 8080, false, &["10.0.0.1"])];
    let (healthy, failures) = aggregate_check_results(&outcomes);
    assert!(!healthy);
    assert_eq!(failures[0].check_name, "port:8080");
}

#[test]
fn check_label_keeps_name_and_synthesizes_port() {
    let named = CheckItem { port: 22, name: "ssh".to_string() };
    assert_eq!(check_label(&named), "ssh");
    let unnamed = CheckItem { port: 443, name: String::new() };
    assert_eq!(check_label(&unnamed), "port:443");
    let small = CheckItem { port: 7, name: String::new() };
    assert_eq!(check_label(&small), "port:7");
    let max = CheckItem { port: 65535, name: String::new() };
    assert_eq!(check_label(&max), "port:65535");
}
