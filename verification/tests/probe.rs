use netscan::probe::{conclude, ProbeResult, ProbeTask};

#[test]
fn conclude_reports_a_connected_host_as_reachable() {
    let task = ProbeTask { address: 0x7f00_0001, port: 80, timeout_ms: 500 };
    assert_eq!(conclude(&task, true), ProbeResult::Reachable(0x7f00_0001));
    assert_eq!(conclude(&task, true).reachable(), Some(0x7f00_0001));
}

#[test]
fn conclude_reports_any_failure_as_unreachable() {
    let task = ProbeTask { address: 0x7f00_0001, port: 80, timeout_ms: 500 };
    assert_eq!(conclude(&task, false), ProbeResult::Unreachable);
    assert_eq!(conclude(&task, false).reachable(), None);
}

#[test]
fn probe_result_passes_on_reachable_hosts_only() {
    assert_eq!(ProbeResult::Reachable(7).reachable(), Some(7));
    assert_eq!(ProbeResult::Unreachable.reachable(), None);
}
