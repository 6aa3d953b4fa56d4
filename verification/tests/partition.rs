use netscan::hosts::HostSet;
use netscan::partition::partition;

fn host_list(n: u32) -> HostSet {
    HostSet::new((0..n).map(|i| 1000 + i).collect()).unwrap()
}

fn lengths(chunks: &Vec<Vec<u32>>) -> Vec<usize> {
    chunks.iter().map(|c| c.len()).collect()
}

fn flat(chunks: &Vec<Vec<u32>>) -> Vec<u32> {
    let mut all = Vec::new();
    for chunk in chunks {
        all.extend_from_slice(chunk);
    }
    all
}

#[test]
fn partition_254_hosts_over_50_workers() {
    let hosts = host_list(254);
    let chunks = partition(&hosts, 50);
    assert_eq!(chunks.len(), 50);
    let mut expected = vec![6usize; 4];
    expected.extend(vec![5usize; 46]);
    assert_eq!(lengths(&chunks), expected);
    assert_eq!(&flat(&chunks), hosts.addresses());
}

#[test]
fn partition_splits_five_hosts_in_three_and_two() {
    let hosts = HostSet::new(vec![1, 2, 3, 4, 5]).unwrap();
    assert_eq!(partition(&hosts, 2), vec![vec![1, 2, 3], vec![4, 5]]);
}

#[test]
fn partition_gives_each_host_a_chunk_where_workers_abound() {
    let hosts = HostSet::new(vec![7, 8, 9]).unwrap();
    assert_eq!(partition(&hosts, 50), vec![vec![7], vec![8], vec![9]]);
}

#[test]
fn partition_of_one_host() {
    let hosts = HostSet::new(vec![42]).unwrap();
    assert_eq!(partition(&hosts, 50), vec![vec![42]]);
    assert_eq!(partition(&hosts, 1), vec![vec![42]]);
}

#[test]
fn partition_with_one_worker_is_one_chunk() {
    let hosts = host_list(17);
    let chunks = partition(&hosts, 1);
    assert_eq!(chunks.len(), 1);
    assert_eq!(&chunks[0], hosts.addresses());
}

#[test]
fn partition_with_no_worker_has_no_chunk() {
    let hosts = host_list(17);
    assert_eq!(partition(&hosts, 0), Vec::<Vec<u32>>::new());
}

#[test]
fn partition_of_an_exact_multiple_is_even() {
    let hosts = host_list(100);
    let chunks = partition(&hosts, 50);
    assert_eq!(lengths(&chunks), vec![2usize; 50]);
    assert_eq!(&flat(&chunks), hosts.addresses());
}

#[test]
fn partition_as_many_hosts_as_workers() {
    let hosts = host_list(50);
    let chunks = partition(&hosts, 50);
    assert_eq!(lengths(&chunks), vec![1usize; 50]);
    assert_eq!(&flat(&chunks), hosts.addresses());
}

#[test]
fn partition_one_host_more_than_workers() {
    let hosts = host_list(51);
    let chunks = partition(&hosts, 50);
    let mut expected = vec![2usize];
    expected.extend(vec![1usize; 49]);
    assert_eq!(lengths(&chunks), expected);
    assert_eq!(&flat(&chunks), hosts.addresses());
}

#[test]
fn partition_covers_every_host_once_for_all_small_sizes() {
    for total in 1..=120u32 {
        let hosts = host_list(total);
        for workers in 1..=60usize {
            let chunks = partition(&hosts, workers);
            assert_eq!(chunks.len(), workers.min(total as usize));
            assert!(chunks.iter().all(|c| !c.is_empty()));
            assert_eq!(&flat(&chunks), hosts.addresses());
            let longest = chunks.iter().map(|c| c.len()).max().unwrap();
            let shortest = chunks.iter().map(|c| c.len()).min().unwrap();
            assert!(longest - shortest <= 1);
            if workers <= total as usize {
                assert_eq!(longest, (total as usize + workers - 1) / workers);
            }
            for pair in chunks.windows(2) {
                assert!(pair[0].len() >= pair[1].len());
            }
        }
    }
}

#[test]
fn partition_keeps_repeated_hosts() {
    let hosts = HostSet::new(vec![5, 5, 5, 1, 1, 9, 5]).unwrap();
    let chunks = partition(&hosts, 3);
    assert_eq!(chunks, vec![vec![5, 5, 5], vec![1, 1], vec![9, 5]]);
    let mut all = flat(&chunks);
    let mut expected = hosts.addresses().clone();
    all.sort();
    expected.sort();
    assert_eq!(all, expected);
}
