//! Splitting a host list into one contiguous chunk per worker.
//!
//! With `total` hosts and `workers` workers there are `min(total, workers)`
//! chunks. Their lengths differ by at most one, the longer chunks first, so
//! the longest has `ceil(total / workers)` hosts wherever every worker gets a
//! chunk.

use crate::hosts::HostSet;
use vstd::prelude::*;
use vstd::slice::{slice_subrange, slice_to_vec};

verus! {

/// Number of chunks: one per worker, but never more chunks than hosts.
pub open spec fn chunk_count(total: nat, workers: nat) -> nat {
    if workers <= total {
        workers
    } else {
        total
    }
}

/// Length of chunk `i`: the remainder of the division goes, one host each,
/// to the first chunks.
pub open spec fn chunk_len(total: nat, workers: nat, i: nat) -> nat
    recommends
        i < chunk_count(total, workers),
{
    let count = chunk_count(total, workers);
    if count == 0 {
        0
    } else if i < total % count {
        total / count + 1
    } else {
        total / count
    }
}

/// Position in the host list at which chunk `i` begins; for `i` the number
/// of chunks, the length of the list.
pub open spec fn chunk_start(total: nat, workers: nat, i: nat) -> nat
    recommends
        i <= chunk_count(total, workers),
{
    let count = chunk_count(total, workers);
    if count == 0 {
        0
    } else if i <= total % count {
        i * (total / count) + i
    } else {
        i * (total / count) + total % count
    }
}

/// The chunks of a host list, first to last.
pub open spec fn partition_spec(hosts: Seq<u32>, workers: nat) -> Seq<Seq<u32>> {
    Seq::new(
        chunk_count(hosts.len(), workers),
        |i: int|
            hosts.subrange(
                chunk_start(hosts.len(), workers, i as nat) as int,
                chunk_start(hosts.len(), workers, (i + 1) as nat) as int,
            ),
    )
}

/// What each of the chunks holds.
pub open spec fn chunk_views(chunks: Seq<Vec<u32>>) -> Seq<Seq<u32>> {
    Seq::new(chunks.len(), |i: int| chunks[i]@)
}

/// Chunk `i` begins where the chunks before it end, holds a host, and ends
/// within the list.
pub proof fn lemma_chunk_step(total: nat, workers: nat, i: nat)
    requires
        i < chunk_count(total, workers),
    ensures
        chunk_start(total, workers, 0) == 0,
        chunk_start(total, workers, i + 1) == chunk_start(total, workers, i) + chunk_len(
            total,
            workers,
            i,
        ),
        chunk_len(total, workers, i) >= 1,
        chunk_start(total, workers, i + 1) <= total,
        chunk_start(total, workers, chunk_count(total, workers)) == total,
{
    let count: int = chunk_count(total, workers) as int;
    let base: int = total as int / count;
    let extra: int = total as int % count;
    let n: int = total as int;
    let j: int = i as int;
    vstd::arithmetic::div_mod::lemma_fundamental_div_mod(n, count);
    assert(base >= 1) by (nonlinear_arith)
        requires
            n == count * base + extra,
            0 <= extra < count,
            count <= n,
    ;
    assert((j + 1) * base == j * base + base) by (nonlinear_arith);
    assert((j + 1) * base <= count * base) by (nonlinear_arith)
        requires
            j + 1 <= count,
            base >= 0,
    ;
}

/// No two chunks overlap: a chunk ends before any later chunk begins, so no
/// place of the host list belongs to two workers.
pub proof fn lemma_chunks_do_not_overlap(total: nat, workers: nat, i: nat, j: nat)
    requires
        i < j < chunk_count(total, workers),
    ensures
        chunk_start(total, workers, i) < chunk_start(total, workers, i + 1) <= chunk_start(
            total,
            workers,
            j,
        ) < chunk_start(total, workers, j + 1) <= total,
{
    let count: int = chunk_count(total, workers) as int;
    let base: int = total as int / count;
    lemma_chunk_step(total, workers, i);
    lemma_chunk_step(total, workers, j);
    assert((i + 1) * base <= j * base) by (nonlinear_arith)
        requires
            i + 1 <= j,
            base >= 0,
    ;
}

/// The chunks, put end to end, are the host list: every host is in exactly
/// one chunk, and the order of the list is kept.
pub proof fn lemma_partition_covers(hosts: Seq<u32>, workers: nat)
    requires
        workers > 0,
    ensures
        partition_spec(hosts, workers).flatten() == hosts,
{
    let total = hosts.len();
    let count = chunk_count(total, workers);
    let chunks = partition_spec(hosts, workers);
    if count > 0 {
        lemma_prefix_covers(hosts, workers, count);
        lemma_chunk_step(total, workers, 0);
        assert(chunks.take(count as int) =~= chunks);
    }
}

/// Partitioning neither loses nor repeats a host: as multisets, the chunks
/// together and the host list are equal. No chunk is empty, and there are
/// as many chunks as workers wherever there are hosts enough.
pub proof fn lemma_partition_is_exact(hosts: Seq<u32>, workers: nat)
    requires
        workers > 0,
    ensures
        partition_spec(hosts, workers).flatten().to_multiset() == hosts.to_multiset(),
        partition_spec(hosts, workers).len() <= workers,
        workers <= hosts.len() ==> partition_spec(hosts, workers).len() == workers,
        forall|i: int|
            0 <= i < partition_spec(hosts, workers).len() ==> (#[trigger] partition_spec(
                hosts,
                workers,
            )[i]).len() >= 1,
{
    lemma_partition_covers(hosts, workers);
    assert forall|i: int| 0 <= i < partition_spec(hosts, workers).len() implies (
    #[trigger] partition_spec(hosts, workers)[i]).len() >= 1 by {
        lemma_chunk_step(hosts.len(), workers, i as nat);
    }
}

/// The load is balanced: chunk `i` has `chunk_len` hosts, no chunk has more
/// hosts than one before it, and none has two hosts fewer.
pub proof fn lemma_partition_is_balanced(hosts: Seq<u32>, workers: nat, i: int, j: int)
    requires
        0 <= i <= j < partition_spec(hosts, workers).len(),
    ensures
        partition_spec(hosts, workers)[i].len() == chunk_len(hosts.len(), workers, i as nat),
        partition_spec(hosts, workers)[j].len() <= partition_spec(hosts, workers)[i].len()
            <= partition_spec(hosts, workers)[j].len() + 1,
{
    lemma_chunk_step(hosts.len(), workers, i as nat);
    lemma_chunk_step(hosts.len(), workers, j as nat);
}

/// The first `m` chunks, put end to end, are the host list up to where
/// chunk `m` begins.
proof fn lemma_prefix_covers(hosts: Seq<u32>, workers: nat, m: nat)
    requires
        m <= chunk_count(hosts.len(), workers),
    ensures
        partition_spec(hosts, workers).take(m as int).flatten() == hosts.subrange(
            0,
            chunk_start(hosts.len(), workers, m) as int,
        ),
    decreases m,
{
    let total = hosts.len();
    let chunks = partition_spec(hosts, workers);
    if m > 0 {
        // The first `m` chunks are the first `m - 1` and the chunk after
        // them, which begins where they end.
        let k: nat = (m - 1) as nat;
        lemma_prefix_covers(hosts, workers, k);
        lemma_chunk_step(total, workers, k);
        assert(chunks.take(m as int) =~= chunks.take(k as int).push(chunks[k as int]));
        chunks.take(k as int).lemma_flatten_push(chunks[k as int]);
    }
}

/// Splits the hosts into chunks for `workers` workers.
///
/// No chunk is empty and there are at most `workers` of them. With at least
/// one worker, the chunks put end to end are the host list; with none, there
/// is no chunk.
pub fn partition(hosts: &HostSet, workers: usize) -> (chunks: Vec<Vec<u32>>)
    ensures
        chunk_views(chunks@) == partition_spec(hosts@, workers as nat),
        chunks@.len() == chunk_count(hosts@.len(), workers as nat),
        chunks@.len() <= workers,
        forall|i: int| 0 <= i < chunks@.len() ==> (#[trigger] chunks@[i])@.len() >= 1,
        workers > 0 ==> chunk_views(chunks@).flatten() == hosts@,
{
    let all: &Vec<u32> = hosts.addresses();
    let total: usize = all.len();
    let count: usize = if workers <= total {
        workers
    } else {
        total
    };
    let mut chunks: Vec<Vec<u32>> = Vec::new();
    if count == 0 {
        return chunks;
    }
    let base: usize = total / count;
    let extra: usize = total % count;
    let mut start: usize = 0;
    let mut i: usize = 0;
    while i < count
        invariant
            all@ == hosts@,
            total == all@.len(),
            count == chunk_count(total as nat, workers as nat),
            count > 0,
            base == total / count,
            extra == total % count,
            i <= count,
            start == chunk_start(total as nat, workers as nat, i as nat),
            start <= total,
            chunks@.len() == i,
            forall|j: int|
                0 <= j < i ==> (#[trigger] chunks@[j])@ == partition_spec(
                    hosts@,
                    workers as nat,
                )[j],
            forall|j: int| 0 <= j < i ==> (#[trigger] chunks@[j])@.len() >= 1,
        decreases count - i,
    {
        proof {
            lemma_chunk_step(total as nat, workers as nat, i as nat);
        }
        let len: usize = if i < extra {
            base + 1
        } else {
            base
        };
        let end: usize = start + len;
        let chunk: Vec<u32> = slice_to_vec(slice_subrange(all.as_slice(), start, end));
        chunks.push(chunk);
        start = end;
        i += 1;
    }
    proof {
        assert(chunk_views(chunks@) =~= partition_spec(hosts@, workers as nat));
        lemma_partition_covers(hosts@, workers as nat);
    }
    chunks
}

} // verus!
