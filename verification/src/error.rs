//! The ways in which a run can end before any host is probed.

use vstd::prelude::*;

verus! {

/// Why a target gave no list of hosts.
#[derive(Clone, Copy, Debug, PartialEq, Eq, Structural)]
pub enum ExpansionError {
    /// The target is neither a CIDR block nor an IPv4 address, and no name
    /// lookup was made for it.
    TargetParseError,
    /// The target was understood, but holds no address to probe.
    EmptyHostSet,
    /// The lookup of a host name failed, or gave no IPv4 address.
    ResolutionError,
}

} // verus!
