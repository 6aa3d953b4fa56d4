//! One probe: what a worker asks of the network, and what the answer means.
//!
//! The attempt to connect is the caller's. Why an attempt failed is of no
//! account: a refusal, a timeout and an unreachable network all leave the
//! host out of the report, and nothing is passed on for it.

use crate::config::ScanConfig;
use vstd::prelude::*;

verus! {

/// One attempt to make: connect to `address` on `port`, and give up after
/// `timeout_ms` milliseconds.
#[derive(Clone, Copy, Debug, PartialEq, Eq, Structural)]
pub struct ProbeTask {
    /// The host to connect to.
    pub address: u32,
    /// The TCP port to connect to.
    pub port: u16,
    /// Time in milliseconds after which the attempt counts as failed.
    pub timeout_ms: u64,
}

/// What a probe found.
#[derive(Clone, Copy, Debug, PartialEq, Eq, Structural)]
pub enum ProbeResult {
    /// The host at this address took the connection in time.
    Reachable(u32),
    /// It did not.
    Unreachable,
}

/// The task for the host at position `i` of a chunk.
pub open spec fn task_at(chunk: Seq<u32>, config: ScanConfig, i: int) -> ProbeTask {
    ProbeTask { address: chunk[i], port: config.port, timeout_ms: config.timeout_ms }
}

/// What the attempt to connect says of the host of a task.
pub fn conclude(task: &ProbeTask, connected: bool) -> (result: ProbeResult)
    ensures
        connected ==> result == ProbeResult::Reachable(task.address),
        !connected ==> result == ProbeResult::Unreachable,
{
    if connected {
        ProbeResult::Reachable(task.address)
    } else {
        ProbeResult::Unreachable
    }
}

impl ProbeResult {
    /// The address to pass on to the report: that of a reachable host.
    /// Nothing is passed on for a host that was not reached.
    pub fn reachable(&self) -> (address: Option<u32>)
        ensures
            address == match *self {
                ProbeResult::Reachable(a) => Some(a),
                ProbeResult::Unreachable => None::<u32>,
            },
    {
        match self {
            ProbeResult::Reachable(a) => Some(*a),
            ProbeResult::Unreachable => None,
        }
    }
}

} // verus!
