use netscan::config::{parse_port, ScanConfig, DEFAULT_WORKERS};
use netscan::error::ExpansionError;
use netscan::outcome::collect;
use netscan::partition::partition;
use netscan::target::{classify, expand, Lookup, ResolvedAddr, TargetSpec};
use netscan::worker::workers_for;

fn ip(a: u8, b: u8, c: u8, d: u8) -> u32 {
    u32::from_be_bytes([a, b, c, d])
}

/// A run without a network: `up` stands for the hosts that take the
/// connection, and the finds of the workers arrive last worker first.
fn run(target: &str, port: &str, lookup: &Lookup, up: &[u32]) -> Result<Vec<u32>, ExpansionError> {
    let config = ScanConfig::new(parse_port(port).unwrap());
    let hosts = expand(target, lookup)?;
    let mut workers = workers_for(partition(&hosts, config.workers), &config);
    workers.reverse();
    let mut arrivals: Vec<u32> = Vec::new();
    for mut worker in workers {
        while let Some(task) = worker.pending() {
            assert_eq!(task.port, config.port);
            if let Some(address) = worker.record(up.contains(&task.address)) {
                arrivals.push(address);
            }
        }
    }
    Ok(collect(&arrivals).addresses().clone())
}

#[test]
fn closed_port_on_a_slash_30_reaches_nobody() {
    let hosts = expand("10.0.0.0/30", &Lookup::Skipped).unwrap();
    assert_eq!(hosts.addresses(), &vec![ip(10, 0, 0, 1), ip(10, 0, 0, 2)]);
    assert_eq!(run("10.0.0.0/30", "9999", &Lookup::Skipped, &[]), Ok(Vec::new()));
}

#[test]
fn listening_local_host_is_reported() {
    assert_eq!(classify("127.0.0.1"), TargetSpec::SingleAddress(ip(127, 0, 0, 1)));
    let outcome = run("127.0.0.1", "8080", &Lookup::Skipped, &[ip(127, 0, 0, 1)]);
    assert_eq!(outcome, Ok(vec![ip(127, 0, 0, 1)]));
}

#[test]
fn slash_32_is_one_host_whether_reachable_or_not() {
    let hosts = expand("10.0.0.5/32", &Lookup::Skipped).unwrap();
    assert_eq!(hosts.addresses(), &vec![ip(10, 0, 0, 5)]);
    assert_eq!(run("10.0.0.5/32", "22", &Lookup::Skipped, &[]), Ok(Vec::new()));
    assert_eq!(run("10.0.0.5/32", "22", &Lookup::Skipped, &[ip(10, 0, 0, 5)]), Ok(vec![ip(
        10, 0, 0, 5
    )]));
}

#[test]
fn invalid_target_fails_before_any_probe() {
    assert_eq!(classify("not-a-host!!"), TargetSpec::Hostname);
    let anyone = [ip(10, 0, 0, 1)];
    assert_eq!(
        run("not-a-host!!", "80", &Lookup::Failed, &anyone),
        Err(ExpansionError::ResolutionError)
    );
    assert_eq!(
        run("not-a-host!!", "80", &Lookup::Skipped, &anyone),
        Err(ExpansionError::TargetParseError)
    );
}

#[test]
fn two_reachable_hosts_in_a_slash_24_with_50_workers() {
    assert_eq!(DEFAULT_WORKERS, 50);
    let up = [ip(192, 168, 1, 200), ip(192, 168, 1, 10)];
    let outcome = run("192.168.1.0/24", "80", &Lookup::Skipped, &up);
    assert_eq!(outcome, Ok(vec![ip(192, 168, 1, 10), ip(192, 168, 1, 200)]));
}

#[test]
fn outcome_is_the_same_for_any_number_of_workers() {
    let hosts = expand("192.168.1.0/24", &Lookup::Skipped).unwrap();
    let up = [ip(192, 168, 1, 200), ip(192, 168, 1, 10), ip(192, 168, 1, 254), ip(192, 168, 1, 1)];
    let mut expected = up.to_vec();
    expected.sort();
    for workers in 1..=300usize {
        let config = ScanConfig { port: 80, workers, timeout_ms: 500 };
        let mut arrivals: Vec<u32> = Vec::new();
        let crew = workers_for(partition(&hosts, workers), &config);
        assert_eq!(crew.len(), workers.min(254));
        for (turn, mut worker) in crew.into_iter().enumerate() {
            while let Some(task) = worker.pending() {
                if let Some(address) = worker.record(up.contains(&task.address)) {
                    if turn % 2 == 0 {
                        arrivals.push(address);
                    } else {
                        arrivals.insert(0, address);
                    }
                }
            }
        }
        assert_eq!(collect(&arrivals).addresses(), &expected);
    }
}

#[test]
fn network_and_broadcast_are_never_probed() {
    let up = [ip(192, 168, 1, 0), ip(192, 168, 1, 255), ip(192, 168, 1, 77)];
    let outcome = run("192.168.1.0/24", "80", &Lookup::Skipped, &up);
    assert_eq!(outcome, Ok(vec![ip(192, 168, 1, 77)]));
}

#[test]
fn host_name_is_scanned_at_its_first_ipv4_address() {
    let lookup = Lookup::Answered(vec![ResolvedAddr::V6, ResolvedAddr::V4(ip(10, 9, 8, 7))]);
    let up = [ip(10, 9, 8, 7)];
    assert_eq!(run("scanme.example", "80", &lookup, &up), Ok(vec![ip(10, 9, 8, 7)]));
    assert_eq!(run("scanme.example", "80", &lookup, &[]), Ok(Vec::new()));
}
