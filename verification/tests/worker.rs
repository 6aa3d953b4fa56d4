use netscan::config::ScanConfig;
use netscan::probe::ProbeTask;
use netscan::worker::{workers_for, Worker};

fn config() -> ScanConfig {
    ScanConfig { port: 9999, workers: 4, timeout_ms: 250 }
}

fn task(address: u32) -> ProbeTask {
    ProbeTask { address, port: 9999, timeout_ms: 250 }
}

/// Runs a worker to its end against hosts that are up, and gives the probes
/// it made and the finds it passed on.
fn drive(mut worker: Worker, up: &[u32]) -> (Vec<ProbeTask>, Vec<u32>) {
    let mut probes = Vec::new();
    let mut finds = Vec::new();
    while let Some(task) = worker.pending() {
        probes.push(task);
        if let Some(address) = worker.record(up.contains(&task.address)) {
            finds.push(address);
        }
    }
    (probes, finds)
}

#[test]
fn worker_probes_each_host_once_in_order() {
    let worker = Worker::new(vec![30, 10, 20], config());
    let (probes, finds) = drive(worker, &[]);
    assert_eq!(probes, vec![task(30), task(10), task(20)]);
    assert_eq!(finds, Vec::<u32>::new());
}

#[test]
fn worker_passes_on_reachable_hosts_in_chunk_order() {
    let worker = Worker::new(vec![30, 10, 20, 40], config());
    let (probes, finds) = drive(worker, &[40, 30, 99]);
    assert_eq!(probes.len(), 4);
    assert_eq!(finds, vec![30, 40]);
}

#[test]
fn worker_takes_port_and_timeout_from_the_settings() {
    let worker = Worker::new(vec![1], ScanConfig::new(80));
    assert_eq!(worker.pending(), Some(ProbeTask { address: 1, port: 80, timeout_ms: 500 }));
}

#[test]
fn worker_pending_does_not_advance() {
    let worker = Worker::new(vec![5, 6], config());
    assert_eq!(worker.pending(), Some(task(5)));
    assert_eq!(worker.pending(), Some(task(5)));
}

#[test]
fn worker_record_gives_the_address_of_the_probe_that_was_due() {
    let mut worker = Worker::new(vec![5, 6, 7], config());
    assert_eq!(worker.record(true), Some(5));
    assert_eq!(worker.pending(), Some(task(6)));
    assert_eq!(worker.record(false), None);
    assert_eq!(worker.pending(), Some(task(7)));
    assert_eq!(worker.record(true), Some(7));
    assert_eq!(worker.pending(), None);
}

#[test]
fn worker_record_after_the_end_changes_nothing() {
    let mut worker = Worker::new(vec![5], config());
    assert_eq!(worker.record(true), Some(5));
    assert_eq!(worker.record(true), None);
    assert_eq!(worker.record(false), None);
    assert_eq!(worker.pending(), None);
}

#[test]
fn worker_of_an_empty_chunk_has_nothing_to_do() {
    let mut worker = Worker::new(Vec::new(), config());
    assert_eq!(worker.pending(), None);
    assert_eq!(worker.record(true), None);
}

#[test]
fn worker_halt_ends_the_work() {
    let mut worker = Worker::new(vec![5, 6, 7], config());
    assert_eq!(worker.record(true), Some(5));
    worker.halt();
    assert_eq!(worker.pending(), None);
    assert_eq!(worker.record(true), None);
    assert_eq!(worker.pending(), None);
}

#[test]
fn workers_for_makes_one_worker_per_chunk() {
    let workers = workers_for(vec![vec![1, 2], vec![3], vec![4, 5]], &config());
    assert_eq!(workers.len(), 3);
    let mut probed = Vec::new();
    for worker in workers {
        let (probes, _) = drive(worker, &[]);
        probed.push(probes.iter().map(|t| t.address).collect::<Vec<u32>>());
    }
    assert_eq!(probed, vec![vec![1, 2], vec![3], vec![4, 5]]);
}

#[test]
fn workers_for_skips_empty_chunks() {
    let workers = workers_for(vec![vec![], vec![1, 2], vec![], vec![], vec![3], vec![]], &config());
    assert_eq!(workers.len(), 2);
    let mut first = Vec::new();
    for worker in workers {
        first.push(worker.pending().unwrap().address);
    }
    assert_eq!(first, vec![1, 3]);
    assert_eq!(workers_for(Vec::new(), &config()).len(), 0);
    assert_eq!(workers_for(vec![vec![], vec![]], &config()).len(), 0);
}
