//! Gathering what the workers found into the report of a run.
//!
//! Workers report reachable hosts in whatever order their probes end. The
//! report lists them in ascending order, which is the numeric order of IPv4
//! addresses, whatever the order of arrival was.

use vstd::prelude::*;
use vstd::seq_lib::*;
use vstd::slice::{slice_subrange, slice_to_vec};

verus! {

/// No address comes before a smaller one.
pub open spec fn ascending(s: Seq<u32>) -> bool {
    forall|i: int, j: int| 0 <= i <= j < s.len() ==> s[i] <= s[j]
}

/// `report` lists the arrivals, each address as often as it arrived, in
/// ascending order.
pub open spec fn is_report_of(arrivals: Seq<u32>, report: Seq<u32>) -> bool {
    ascending(report) && report.to_multiset() == arrivals.to_multiset()
}

/// The hosts found reachable in a run, in ascending order. It may be empty:
/// a run that reaches no host has still succeeded.
#[derive(Debug, PartialEq, Eq)]
pub struct ScanOutcome {
    reachable: Vec<u32>,
}

impl View for ScanOutcome {
    type V = Seq<u32>;

    closed spec fn view(&self) -> Seq<u32> {
        self.reachable@
    }
}

impl ScanOutcome {
    #[verifier::type_invariant]
    spec fn in_order(&self) -> bool {
        ascending(self.reachable@)
    }

    /// The reachable hosts, in ascending order.
    pub fn addresses(&self) -> (v: &Vec<u32>)
        ensures
            v@ == self@,
            ascending(self@),
    {
        proof {
            use_type_invariant(self);
        }
        &self.reachable
    }

    /// Number of reachable hosts.
    pub fn len(&self) -> (n: usize)
        ensures
            n == self@.len(),
    {
        self.reachable.len()
    }

    /// Whether no host was reachable.
    pub fn is_empty(&self) -> (b: bool)
        ensures
            b == (self@.len() == 0),
    {
        self.reachable.len() == 0
    }
}

/// Makes the report of a run from the addresses that arrived from the workers.
pub fn collect(arrivals: &Vec<u32>) -> (outcome: ScanOutcome)
    ensures
        is_report_of(arrivals@, outcome@),
{
    ScanOutcome { reachable: sorted_copy(arrivals.as_slice()) }
}

/// Merges two ascending lists into one.
fn merge(left: &Vec<u32>, right: &Vec<u32>) -> (out: Vec<u32>)
    requires
        ascending(left@),
        ascending(right@),
    ensures
        ascending(out@),
        out@.to_multiset() == left@.to_multiset().add(right@.to_multiset()),
{
    broadcast use vstd::multiset::group_multiset_axioms;

    let mut out: Vec<u32> = Vec::new();
    let mut i: usize = 0;
    let mut j: usize = 0;
    proof {
        assert(out@ =~= left@.take(0) + right@.take(0));
        lemma_multiset_commutative(left@.take(0), right@.take(0));
    }
    while i < left.len() || j < right.len()
        invariant
            ascending(left@),
            ascending(right@),
            i <= left@.len(),
            j <= right@.len(),
            ascending(out@),
            out@.to_multiset() == left@.take(i as int).to_multiset().add(
                right@.take(j as int).to_multiset(),
            ),
            forall|k: int| 0 <= k < out@.len() && i < left@.len() ==> out@[k] <= left@[i as int],
            forall|k: int| 0 <= k < out@.len() && j < right@.len() ==> out@[k] <= right@[j as int],
        decreases left@.len() - i + right@.len() - j,
    {
        let from_left: bool = j >= right.len() || (i < left.len() && left[i] <= right[j]);
        let ghost before = out@;
        if from_left {
            let x: u32 = left[i];
            out.push(x);
            proof {
                assert(left@.take(i + 1) =~= left@.take(i as int).push(x));
                to_multiset_build(left@.take(i as int), x);
                to_multiset_build(before, x);
                assert(out@.to_multiset() =~= left@.take(i + 1).to_multiset().add(
                    right@.take(j as int).to_multiset(),
                ));
            }
            i += 1;
        } else {
            let x: u32 = right[j];
            out.push(x);
            proof {
                assert(right@.take(j + 1) =~= right@.take(j as int).push(x));
                to_multiset_build(right@.take(j as int), x);
                to_multiset_build(before, x);
                assert(out@.to_multiset() =~= left@.take(i as int).to_multiset().add(
                    right@.take(j + 1).to_multiset(),
                ));
            }
            j += 1;
        }
    }
    proof {
        assert(left@.take(i as int) =~= left@);
        assert(right@.take(j as int) =~= right@);
    }
    out
}

/// An ascending copy of the slice, by merge sort.
fn sorted_copy(v: &[u32]) -> (out: Vec<u32>)
    ensures
        is_report_of(v@, out@),
    decreases v@.len(),
{
    let n: usize = v.len();
    if n <= 1 {
        slice_to_vec(v)
    } else {
        let mid: usize = n / 2;
        let left: Vec<u32> = sorted_copy(slice_subrange(v, 0, mid));
        let right: Vec<u32> = sorted_copy(slice_subrange(v, mid, n));
        proof {
            let a = v@.subrange(0, mid as int);
            let b = v@.subrange(mid as int, n as int);
            assert(v@ =~= a + b);
            lemma_multiset_commutative(a, b);
        }
        merge(&left, &right)
    }
}

/// The report does not depend on the order of arrival: arrivals that differ
/// only in their order have one and the same report.
pub proof fn lemma_report_ignores_arrival_order(
    first: Seq<u32>,
    second: Seq<u32>,
    first_report: Seq<u32>,
    second_report: Seq<u32>,
)
    requires
        first.to_multiset() == second.to_multiset(),
        is_report_of(first, first_report),
        is_report_of(second, second_report),
    ensures
        first_report == second_report,
{
    let leq = |a: u32, b: u32| a <= b;
    lemma_sorted_unique(first_report, second_report, leq);
}

} // verus!
