use netpulse::alert::AlertState;
use netpulse::fleet::CheckItem;
use netpulse::orchestrator::{aggregate_check_results, aggregate_ip_results, CheckOutcome, IpProbeResult};
use netpulse::scheduler::{process_round, remaining_wait, DeviceVerdict};

#[test]
fn round_pacing_waits_the_remainder() {
    // Check phase took 2s of a 5s interval: wait 3s.
    assert_eq!(remaining_wait(5, 2), 3);
    // Check phase overran the interval: start at once.
    assert_eq!(remaining_wait(5, 7), 0);
    assert_eq!(remaining_wait(5, 5), 0);
    assert_eq!(remaining_wait(5, 0), 5);
}

/// One device, one check, a connector that always fails: the device's
/// verdict for one round, produced through both fan-in levels.
fn failing_round_verdict() -> DeviceVerdict {
    let probes = vec![
        IpProbeResult { ip: "10.0.0.1".to_string(), success: false },
        IpProbeResult { ip: "10.0.0.2".to_string(), success: false },
    ];
    let (check_healthy, failed_ips) = aggregate_ip_results(&probes);
    let outcomes = vec![CheckOutcome {
        check: CheckItem { port: 80, name: "web".to_string() },
        healthy: check_healthy,
        failed_ips,
    }];
    let (healthy, failures) = aggregate_check_results(&outcomes);
    DeviceVerdict { device_id: "dev-1".to_string(), healthy, failures }
}

#[test]
fn end_to_end_cooldown_over_rounds() {
    // alert_cooldown=60, interval=5, connector always fails. Round 1 (t=0)
    // fires; rounds at t=5..55 are suppressed; the first round at t=60
    // fires again.
    let mut state = AlertState::new();
    let cooldown: u64 = 60;
    let mut fired_at: Vec<i64> = Vec::new();
    let mut t: i64 = 0;
    while t <= 60 {
        let verdicts = vec![failing_round_verdict()];
        assert!(!verdicts[0].healthy);
        assert_eq!(verdicts[0].failures.len(), 1);
        let alerts = process_round(&mut state, &verdicts, t, cooldown);
        if !alerts.is_empty() {
            assert_eq!(alerts, vec![0]);
            fired_at.push(t);
        }
        t += 5;
    }
    assert_eq!(fired_at, vec![0, 60]);
}

#[test]
fn round_mixes_recovery_and_alerts() {
    let mut state = AlertState::new();
    // Round 1: both devices failing, both fire.
    let verdicts = vec![
        DeviceVerdict { device_id: "a".to_string(), healthy: false, failures: vec![] },
        DeviceVerdict { device_id: "b".to_string(), healthy: false, failures: vec![] },
    ];
    let alerts = process_round(&mut state, &verdicts, 0, 60);
    assert_eq!(alerts, vec![0, 1]);
    // Round 2: "a" recovers, "b" still failing but inside cooldown.
    let verdicts = vec![
        DeviceVerdict { device_id: "a".to_string(), healthy: true, failures: vec![] },
        DeviceVerdict { device_id: "b".to_string(), healthy: false, failures: vec![] },
    ];
    let alerts = process_round(&mut state, &verdicts, 5, 60);
    assert!(alerts.is_empty());
    // Round 3: "a" fails again; its record was cleared, so it fires at
    // once; "b" is still suppressed.
    let verdicts = vec![
        DeviceVerdict { device_id: "a".to_string(), healthy: false, failures: vec![] },
        DeviceVerdict { device_id: "b".to_string(), healthy: false, failures: vec![] },
    ];
    let alerts = process_round(&mut state, &verdicts, 10, 60);
    assert_eq!(alerts, vec![0]);
}

#[test]
fn empty_round_changes_nothing() {
    let mut state = AlertState::new();
    let alerts = process_round(&mut state, &vec![], 0, 60);
    assert!(alerts.is_empty());
}
