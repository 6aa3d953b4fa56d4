//! A worker: the owner of one chunk, who probes its hosts one after another.
//!
//! The attempt to connect is the caller's, and so is the sending. A worker
//! says which probe is due, takes the outcome of the attempt, and says what
//! to send on. The caller runs the loop:
//!
//! ```text
//! while let Some(task) = worker.pending() {
//!     let connected = /* try to connect, as the task says */;
//!     if let Some(address) = worker.record(connected) {
//!         /* send the address on; where that fails: */ worker.halt();
//!     }
//! }
//! ```

use crate::config::ScanConfig;
use crate::partition::chunk_views;
use crate::probe::{conclude, task_at, ProbeTask};
use vstd::prelude::*;

verus! {

/// How far a worker has come: the number of hosts probed, and what each of
/// the attempts gave.
struct Progress {
    next: usize,
    outcomes: Ghost<Seq<bool>>,
}

/// The owner of one chunk of hosts.
pub struct Worker {
    chunk: Vec<u32>,
    config: ScanConfig,
    progress: Progress,
    halted: bool,
}

/// The addresses that a worker passes on: those of the hosts, in the order
/// of the chunk, whose attempt gave a connection. `outcomes` holds one
/// outcome for each host probed so far.
pub open spec fn finds(chunk: Seq<u32>, outcomes: Seq<bool>) -> Seq<u32>
    recommends
        outcomes.len() <= chunk.len(),
    decreases outcomes.len(),
{
    if outcomes.len() == 0 {
        Seq::empty()
    } else if outcomes.last() {
        finds(chunk, outcomes.drop_last()).push(chunk[outcomes.len() - 1])
    } else {
        finds(chunk, outcomes.drop_last())
    }
}

impl Worker {
    #[verifier::type_invariant]
    spec fn in_step(&self) -> bool {
        &&& self.progress.next <= self.chunk@.len()
        &&& self.progress.outcomes@.len() == self.progress.next
    }

    /// The hosts of the worker's chunk.
    pub closed spec fn hosts(&self) -> Seq<u32> {
        self.chunk@
    }

    /// The settings that the worker probes with.
    pub closed spec fn settings(&self) -> ScanConfig {
        self.config
    }

    /// What the attempts made so far gave, first to last.
    pub closed spec fn outcomes(&self) -> Seq<bool> {
        self.progress.outcomes@
    }

    /// Whether the worker was told to stop.
    pub closed spec fn is_halted(&self) -> bool {
        self.halted
    }

    /// Holds of every worker: no more outcomes than hosts.
    pub open spec fn wf(&self) -> bool {
        self.outcomes().len() <= self.hosts().len()
    }

    /// The probe that is due: that of the first host without an outcome,
    /// unless the worker was told to stop.
    pub open spec fn spec_pending(&self) -> Option<ProbeTask> {
        if !self.is_halted() && self.outcomes().len() < self.hosts().len() {
            Some(task_at(self.hosts(), self.settings(), self.outcomes().len() as int))
        } else {
            None
        }
    }

    /// What the worker has passed on so far.
    pub open spec fn passed_on(&self) -> Seq<u32> {
        finds(self.hosts(), self.outcomes())
    }

    /// A worker for a chunk, with every probe still to make.
    pub fn new(chunk: Vec<u32>, config: ScanConfig) -> (worker: Worker)
        ensures
            worker.hosts() == chunk@,
            worker.settings() == config,
            worker.outcomes() == Seq::<bool>::empty(),
            !worker.is_halted(),
            worker.wf(),
    {
        Worker {
            chunk,
            config,
            progress: Progress { next: 0, outcomes: Ghost(Seq::empty()) },
            halted: false,
        }
    }

    /// The probe to make next, or `None` when the worker is done.
    pub fn pending(&self) -> (task: Option<ProbeTask>)
        ensures
            task == self.spec_pending(),
            self.wf(),
    {
        proof {
            use_type_invariant(self);
        }
        if !self.halted && self.progress.next < self.chunk.len() {
            Some(
                ProbeTask {
                    address: self.chunk[self.progress.next],
                    port: self.config.port,
                    timeout_ms: self.config.timeout_ms,
                },
            )
        } else {
            None
        }
    }

    /// Takes the outcome of the probe that was due, and gives the address
    /// to send on: that of the host, where it took the connection. With no
    /// probe due, nothing changes and there is nothing to send.
    pub fn record(&mut self, connected: bool) -> (find: Option<u32>)
        ensures
            final(self).hosts() == old(self).hosts(),
            final(self).settings() == old(self).settings(),
            final(self).is_halted() == old(self).is_halted(),
            final(self).wf(),
            match old(self).spec_pending() {
                Some(task) => {
                    &&& final(self).outcomes() == old(self).outcomes().push(connected)
                    &&& find == if connected {
                        Some(task.address)
                    } else {
                        None
                    }
                },
                None => final(self).outcomes() == old(self).outcomes() && find is None,
            },
            final(self).passed_on() == match find {
                Some(address) => old(self).passed_on().push(address),
                None => old(self).passed_on(),
            },
    {
        proof {
            use_type_invariant(&*self);
        }
        match self.pending() {
            Some(task) => {
                let ghost before = self.progress.outcomes@;
                assert(self.progress.next < self.chunk.len());
                self.progress = Progress {
                    next: self.progress.next + 1,
                    outcomes: Ghost(before.push(connected)),
                };
                proof {
                    assert(before.push(connected).drop_last() =~= before);
                }
                conclude(&task, connected).reachable()
            },
            None => None,
        }
    }

    /// Tells the worker to stop: no probe is due after this.
    pub fn halt(&mut self)
        ensures
            final(self).hosts() == old(self).hosts(),
            final(self).settings() == old(self).settings(),
            final(self).outcomes() == old(self).outcomes(),
            final(self).is_halted(),
            final(self).spec_pending() is None,
            final(self).wf(),
    {
        proof {
            use_type_invariant(&*self);
        }
        self.halted = true;
    }
}

/// The chunks that get a worker: those that hold a host, in their order.
pub open spec fn chunks_with_hosts(chunks: Seq<Seq<u32>>) -> Seq<Seq<u32>> {
    chunks.filter(|chunk: Seq<u32>| chunk.len() > 0)
}

/// Makes the workers of a run: one for each chunk that holds a host, in the
/// order of the chunks, each with every probe still to make. An empty chunk
/// gets no worker.
pub fn workers_for(chunks: Vec<Vec<u32>>, config: &ScanConfig) -> (workers: Vec<Worker>)
    ensures
        workers@.len() == chunks_with_hosts(chunk_views(chunks@)).len(),
        forall|i: int|
            0 <= i < workers@.len() ==> {
                &&& (#[trigger] workers@[i]).hosts() == chunks_with_hosts(chunk_views(chunks@))[i]
                &&& workers@[i].settings() == *config
                &&& workers@[i].outcomes() == Seq::<bool>::empty()
                &&& !workers@[i].is_halted()
            },
{
    let ghost all = chunk_views(chunks@);
    let ghost with_hosts = |chunk: Seq<u32>| chunk.len() > 0;
    let mut workers: Vec<Worker> = Vec::new();
    proof {
        reveal(Seq::filter);
    }
    for chunk in it: chunks
        invariant
            it.seq() == chunks@,
            all == chunk_views(chunks@),
            with_hosts == |chunk: Seq<u32>| chunk.len() > 0,
            workers@.len() == all.take(it.index()).filter(with_hosts).len(),
            forall|i: int|
                0 <= i < workers@.len() ==> {
                    &&& (#[trigger] workers@[i]).hosts() == all.take(it.index()).filter(
                        with_hosts,
                    )[i]
                    &&& workers@[i].settings() == *config
                    &&& workers@[i].outcomes() == Seq::<bool>::empty()
                    &&& !workers@[i].is_halted()
                },
    {
        proof {
            reveal(Seq::filter);
            let n = it.index();
            assert(all.take(n + 1).drop_last() =~= all.take(n));
        }
        if chunk.len() > 0 {
            workers.push(Worker::new(chunk, *config));
        }
    }
    proof {
        assert(all.take(all.len() as int) =~= all);
    }
    workers
}

/// A worker that was not told to stop is done when it has probed every host
/// of its chunk, each once and in the order of the chunk. What it has passed
/// on by then are the reachable hosts of the chunk, in that order, where
/// `up` says which hosts took the connection.
pub proof fn lemma_worker_passes_on_reachable_hosts(worker: Worker, up: spec_fn(u32) -> bool)
    requires
        worker.wf(),
        !worker.is_halted(),
        worker.spec_pending() is None,
        forall|i: int|
            0 <= i < worker.outcomes().len() ==> worker.outcomes()[i] == up(worker.hosts()[i]),
    ensures
        worker.outcomes().len() == worker.hosts().len(),
        worker.passed_on() == worker.hosts().filter(up),
{
    lemma_finds_are_filter(worker.hosts(), worker.outcomes(), up);
    assert(worker.hosts().take(worker.hosts().len() as int) =~= worker.hosts());
}

/// The finds among the hosts probed so far are those that `up` lets through.
pub proof fn lemma_finds_are_filter(chunk: Seq<u32>, outcomes: Seq<bool>, up: spec_fn(u32) -> bool)
    requires
        outcomes.len() <= chunk.len(),
        forall|i: int| 0 <= i < outcomes.len() ==> outcomes[i] == up(chunk[i]),
    ensures
        finds(chunk, outcomes) == chunk.take(outcomes.len() as int).filter(up),
    decreases outcomes.len(),
{
    reveal(Seq::filter);
    let n = outcomes.len() as int;
    if n > 0 {
        lemma_finds_are_filter(chunk, outcomes.drop_last(), up);
        assert(chunk.take(n).drop_last() =~= chunk.take(n - 1));
    }
}

} // verus!
