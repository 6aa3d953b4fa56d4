//! The list of hosts that a run probes.

use crate::error::ExpansionError;
use vstd::prelude::*;

verus! {

/// A list of host addresses to probe, in the order of their expansion.
///
/// It is never empty: a target without hosts is an error, not a run that
/// probes nothing.
#[derive(Debug, PartialEq, Eq)]
pub struct HostSet {
    addrs: Vec<u32>,
}

impl View for HostSet {
    type V = Seq<u32>;

    closed spec fn view(&self) -> Seq<u32> {
        self.addrs@
    }
}

impl HostSet {
    #[verifier::type_invariant]
    spec fn nonempty(&self) -> bool {
        self.addrs@.len() > 0
    }

    /// Holds of every host set that `new` hands out.
    pub open spec fn wf(&self) -> bool {
        self@.len() > 0
    }

    /// Takes the addresses as the hosts of a run, in their order, or fails
    /// with `EmptyHostSet` where there are none.
    pub fn new(addrs: Vec<u32>) -> (r: Result<HostSet, ExpansionError>)
        ensures
            addrs@.len() == 0 ==> r == Err::<HostSet, ExpansionError>(ExpansionError::EmptyHostSet),
            addrs@.len() > 0 ==> r is Ok && r->Ok_0@ == addrs@ && r->Ok_0.wf(),
    {
        if addrs.len() == 0 {
            Err(ExpansionError::EmptyHostSet)
        } else {
            Ok(HostSet { addrs })
        }
    }

    /// Number of hosts.
    pub fn len(&self) -> (n: usize)
        ensures
            n == self@.len(),
            n > 0,
    {
        proof {
            use_type_invariant(self);
        }
        self.addrs.len()
    }

    /// The hosts, in order.
    pub fn addresses(&self) -> (v: &Vec<u32>)
        ensures
            v@ == self@,
            self.wf(),
    {
        proof {
            use_type_invariant(self);
        }
        &self.addrs
    }
}

} // verus!
