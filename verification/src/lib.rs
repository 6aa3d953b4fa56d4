//! Planning and bookkeeping for a concurrent TCP reachability scan.
//!
//! A scan turns a target (a CIDR block, a single IPv4 address or a host name)
//! into a list of host addresses, splits that list into one chunk per worker,
//! probes every host, and reports the reachable ones in ascending order.
//! This crate holds every step of that which needs no socket and no thread:
//! the caller connects and resolves names, and hands the outcomes back.
//!
//! Addresses are `u32` values in host byte order, so that `10.0.0.1` is
//! `0x0a00_0001` and numeric order is address order.
//!
//! The steps of a run, and where they stand:
//!
//! - `config`: the port, the number of workers and the time for a probe;
//! - `target`: what the target is, and which hosts it stands for;
//! - `block`: the hosts of a CIDR block;
//! - `partition`: one chunk of hosts for each worker;
//! - `worker` and `probe`: the probes of one worker, and what it passes on;
//! - `outcome`: the report, in ascending order;
//! - `run`: what holds of a run as a whole.

pub mod block;
pub mod config;
pub mod error;
pub mod hosts;
pub mod outcome;
pub mod partition;
pub mod probe;
pub mod run;
pub mod target;
pub mod worker;
