//! A whole run, from the host list to the report.
//!
//! Each worker probes the hosts of its chunk and passes on the reachable
//! ones. What arrives at the collector is some interleaving of what the
//! workers pass on. The laws here say that the report is nevertheless fixed
//! by the hosts and by which of them are reachable, and by nothing else.

use crate::outcome::{ascending, is_report_of};
use crate::partition::{lemma_chunk_step, lemma_partition_covers, partition_spec};
use crate::worker::chunks_with_hosts;
use vstd::prelude::*;

verus! {

/// What the workers pass on, chunk by chunk, where `up` says which hosts
/// take the connection: from each chunk its reachable hosts, in their order.
pub open spec fn finds_of_chunks(chunks: Seq<Seq<u32>>, up: spec_fn(u32) -> bool) -> Seq<Seq<u32>> {
    Seq::new(chunks.len(), |i: int| chunks[i].filter(up))
}

/// Every chunk of a partition gets a worker, since none is empty.
pub proof fn lemma_every_chunk_gets_a_worker(hosts: Seq<u32>, workers: nat)
    ensures
        chunks_with_hosts(partition_spec(hosts, workers)) == partition_spec(hosts, workers),
{
    let chunks = partition_spec(hosts, workers);
    assert forall|i: int| 0 <= i < chunks.len() implies (#[trigger] chunks[i]).len() > 0 by {
        lemma_chunk_step(hosts.len(), workers, i as nat);
    }
    lemma_filter_keeps_all(chunks, |chunk: Seq<u32>| chunk.len() > 0);
}

/// A filter that every item passes changes nothing.
proof fn lemma_filter_keeps_all(s: Seq<Seq<u32>>, pred: spec_fn(Seq<u32>) -> bool)
    requires
        forall|i: int| 0 <= i < s.len() ==> pred(#[trigger] s[i]),
    ensures
        s.filter(pred) == s,
    decreases s.len(),
{
    reveal(Seq::filter);
    if s.len() > 0 {
        lemma_filter_keeps_all(s.drop_last(), pred);
    }
}

/// Taken chunk by chunk or from the chunks put end to end, the reachable
/// hosts are the same.
pub proof fn lemma_finds_of_chunks_are_filter(chunks: Seq<Seq<u32>>, up: spec_fn(u32) -> bool)
    ensures
        finds_of_chunks(chunks, up).flatten() == chunks.flatten().filter(up),
    decreases chunks.len(),
{
    if chunks.len() == 0 {
        assert(Seq::<u32>::empty().filter(up) =~= Seq::<u32>::empty()) by {
            reveal(Seq::filter);
        }
    } else {
        let front = chunks.drop_last();
        let last = chunks.last();
        lemma_finds_of_chunks_are_filter(front, up);
        assert(chunks =~= front.push(last));
        assert(finds_of_chunks(chunks, up) =~= finds_of_chunks(front, up).push(last.filter(up)));
        front.lemma_flatten_push(last);
        finds_of_chunks(front, up).lemma_flatten_push(last.filter(up));
        Seq::filter_distributes_over_add(front.flatten(), last, up);
    }
}

/// The report of a run lists the reachable hosts, each once for each time
/// it stands in the host list, in ascending order: whatever the number of
/// workers, whichever worker found which host, and in whatever order the
/// finds arrived.
pub proof fn lemma_run_reports_reachable_hosts(
    hosts: Seq<u32>,
    workers: nat,
    up: spec_fn(u32) -> bool,
    arrivals: Seq<u32>,
    report: Seq<u32>,
)
    requires
        workers > 0,
        arrivals.to_multiset() == finds_of_chunks(
            partition_spec(hosts, workers),
            up,
        ).flatten().to_multiset(),
        is_report_of(arrivals, report),
    ensures
        is_report_of(hosts.filter(up), report),
        forall|a: u32| report.contains(a) <==> hosts.contains(a) && up(a),
{
    broadcast use vstd::seq_lib::group_to_multiset_ensures;

    lemma_partition_covers(hosts, workers);
    lemma_finds_of_chunks_are_filter(partition_spec(hosts, workers), up);
    let found = hosts.filter(up);
    assert(report.to_multiset() == found.to_multiset());
    assert forall|a: u32| report.contains(a) <==> hosts.contains(a) && up(a) by {
        // An address is in a list where it counts in the multiset of the list.
        assert(report.contains(a) <==> report.to_multiset().count(a) > 0);
        assert(found.contains(a) <==> found.to_multiset().count(a) > 0);
        if found.contains(a) {
            let i = choose|i: int| 0 <= i < found.len() && found[i] == a;
            hosts.lemma_filter_pred(up, i);
            lemma_filter_keeps_members(hosts, up, i);
        }
        if hosts.contains(a) && up(a) {
            let i = choose|i: int| 0 <= i < hosts.len() && hosts[i] == a;
            hosts.lemma_filter_contains(up, i);
        }
    }
}

/// A run in which finds were lost, because a worker broke down or stopped
/// early, still reports reachable hosts only, in ascending order, and none
/// more often than the workers could have found it.
pub proof fn lemma_partial_run_reports_reachable_hosts_only(
    hosts: Seq<u32>,
    workers: nat,
    up: spec_fn(u32) -> bool,
    arrivals: Seq<u32>,
    report: Seq<u32>,
)
    requires
        workers > 0,
        arrivals.to_multiset().subset_of(
            finds_of_chunks(partition_spec(hosts, workers), up).flatten().to_multiset(),
        ),
        is_report_of(arrivals, report),
    ensures
        ascending(report),
        report.to_multiset().subset_of(hosts.filter(up).to_multiset()),
        forall|a: u32| report.contains(a) ==> hosts.contains(a) && up(a),
{
    broadcast use vstd::seq_lib::group_to_multiset_ensures;

    lemma_partition_covers(hosts, workers);
    lemma_finds_of_chunks_are_filter(partition_spec(hosts, workers), up);
    let found = hosts.filter(up);
    assert forall|a: u32| report.contains(a) implies hosts.contains(a) && up(a) by {
        assert(report.to_multiset().count(a) <= found.to_multiset().count(a));
        assert(found.contains(a));
        let i = choose|i: int| 0 <= i < found.len() && found[i] == a;
        hosts.lemma_filter_pred(up, i);
        lemma_filter_keeps_members(hosts, up, i);
    }
}

/// Whatever a filter lets through was in the list.
proof fn lemma_filter_keeps_members(s: Seq<u32>, pred: spec_fn(u32) -> bool, i: int)
    requires
        0 <= i < s.filter(pred).len(),
    ensures
        s.contains(s.filter(pred)[i]),
    decreases s.len(),
{
    reveal(Seq::filter);
    if s.len() > 0 {
        let front = s.drop_last();
        if i < front.filter(pred).len() {
            lemma_filter_keeps_members(front, pred, i);
            let k = choose|k: int| 0 <= k < front.len() && front[k] == front.filter(pred)[i];
            assert(s[k] == s.filter(pred)[i]);
        } else {
            assert(s.last() == s.filter(pred)[i]);
        }
    }
}

} // verus!
