//! From the text of a target to the hosts that it stands for.
//!
//! A target is a CIDR block, a single IPv4 address or a host name, tried in
//! that order. The first two are settled by the text alone. A host name is
//! settled by a lookup, which the caller makes and whose outcome it hands in:
//! the first IPv4 address among the answers is the host.

use crate::block::{hosts_of, Block, ADDRESS_BITS};
use crate::error::ExpansionError;
use crate::hosts::HostSet;
use vstd::prelude::*;

verus! {

/// What a target was understood to be.
#[derive(Clone, Copy, Debug, PartialEq, Eq)]
pub enum TargetSpec {
    /// A bare IPv4 address, such as `127.0.0.1`.
    SingleAddress(u32),
    /// An address with a prefix length or a netmask, such as `10.0.0.0/30`.
    NetworkBlock(Block),
    /// Anything else: a name to look up.
    Hostname,
}

/// One answer of a name lookup.
#[derive(Clone, Copy, Debug, PartialEq, Eq, Structural)]
pub enum ResolvedAddr {
    /// An IPv4 address.
    V4(u32),
    /// An address of another family, which a scan cannot use.
    V6,
}

/// How the lookup of a host name went.
#[derive(Debug, PartialEq, Eq)]
pub enum Lookup {
    /// No lookup was made.
    Skipped,
    /// The lookup failed.
    Failed,
    /// The lookup gave these answers, in this order.
    Answered(Vec<ResolvedAddr>),
}

/// The address and prefix length that the CIDR parser reads from a text, or
/// `None` where it rejects the text.
pub uninterp spec fn parsed_block(text: Seq<char>) -> Option<(u32, u8)>;

/// Parses `text` as `ipnetwork::Ipv4Network` does, by its `FromStr`, and
/// hands out what `Ipv4Network::ip` and `Ipv4Network::prefix` say of the
/// result: the address, as a number in host byte order, and the prefix
/// length.
///
/// Not verified. The contract claims only that the answer depends on the
/// text and on nothing else. Nothing is claimed of which texts the parser
/// takes; it takes an IPv4 address, alone or followed by one `/` and either
/// a prefix length up to 32 or a contiguous netmask.
#[verifier::external_body]
fn parse_block(text: &str) -> (r: Option<(u32, u8)>)
    ensures
        r == parsed_block(text@),
{
    match text.parse::<ipnetwork::Ipv4Network>() {
        Ok(network) => Some((u32::from(network.ip()), network.prefix())),
        Err(_) => None,
    }
}

/// Whether the text holds a `/`, the mark of a block.
pub fn has_slash(text: &str) -> (found: bool)
    ensures
        found == text@.contains('/'),
{
    broadcast use vstd::string::group_string_axioms;

    let mut found: bool = false;
    for c in it: text.chars()
        invariant
            it.seq() == text@,
            found == text@.take(it.index()).contains('/'),
    {
        proof {
            // With one more character read, the text so far holds a `/` if
            // it did before, or if this character is one.
            let n = it.index();
            assert(text@.take(n + 1) =~= text@.take(n).push(c));
            if text@.take(n).contains('/') {
                let k = choose|k: int| 0 <= k < n && text@.take(n)[k] == '/';
                assert(text@.take(n + 1)[k] == '/');
            }
            if c == '/' {
                assert(text@.take(n + 1)[n] == '/');
            }
        }
        if c == '/' {
            found = true;
        }
    }
    proof {
        assert(text@.take(text@.len() as int) =~= text@);
    }
    found
}

/// Whether `target` is what a text stands for, given what the parser read
/// from it and whether it holds a `/`.
///
/// A text that the parser takes is a block where it holds a `/`, and a
/// single address where it does not: so `10.0.0.5` is an address, and
/// `10.0.0.5/32` a block of that one address. Any other text is a host
/// name, and so is one from which the parser read a prefix that no block
/// can have.
pub open spec fn classifies_as(parsed: Option<(u32, u8)>, slash: bool, target: TargetSpec) -> bool {
    match parsed {
        Some((addr, prefix)) => if prefix > ADDRESS_BITS {
            target is Hostname
        } else if slash {
            target matches TargetSpec::NetworkBlock(b) && b.spec_addr() == addr && b.spec_prefix()
                == prefix
        } else {
            target == TargetSpec::SingleAddress(addr)
        },
        None => target is Hostname,
    }
}

/// Says what a text stands for, from what the parser read from it and
/// whether it holds a `/`.
pub fn classify_parsed(parsed: Option<(u32, u8)>, slash: bool) -> (target: TargetSpec)
    ensures
        classifies_as(parsed, slash, target),
        target matches TargetSpec::NetworkBlock(b) ==> b.wf(),
{
    match parsed {
        Some((addr, prefix)) => match Block::new(addr, prefix) {
            Some(block) => if slash {
                TargetSpec::NetworkBlock(block)
            } else {
                TargetSpec::SingleAddress(addr)
            },
            None => TargetSpec::Hostname,
        },
        None => TargetSpec::Hostname,
    }
}

/// Says what the text of a target stands for.
pub fn classify(text: &str) -> (target: TargetSpec)
    ensures
        classifies_as(parsed_block(text@), text@.contains('/'), target),
        target matches TargetSpec::NetworkBlock(b) ==> b.wf(),
{
    classify_parsed(parse_block(text), has_slash(text))
}

/// The first IPv4 address among the answers of a lookup, if there is one.
pub open spec fn first_ipv4(answers: Seq<ResolvedAddr>) -> Option<u32>
    decreases answers.len(),
{
    if answers.len() == 0 {
        None
    } else {
        match answers[0] {
            ResolvedAddr::V4(a) => Some(a),
            ResolvedAddr::V6 => first_ipv4(answers.drop_first()),
        }
    }
}

/// `first_ipv4` finds the answer before which no answer is an IPv4 address,
/// and finds none only where no answer is one.
pub proof fn lemma_first_ipv4(answers: Seq<ResolvedAddr>)
    ensures
        first_ipv4(answers) is None <==> forall|i: int|
            0 <= i < answers.len() ==> answers[i] is V6,
        first_ipv4(answers) matches Some(a) ==> exists|i: int|
            0 <= i < answers.len() && answers[i] == ResolvedAddr::V4(a) && forall|j: int|
                0 <= j < i ==> answers[j] is V6,
    decreases answers.len(),
{
    if answers.len() > 0 {
        let rest = answers.drop_first();
        lemma_first_ipv4(rest);
        if answers[0] is V6 {
            // The answers after the first are those of `rest`, one place on.
            if first_ipv4(rest) is None {
                assert forall|i: int| 0 <= i < answers.len() implies answers[i] is V6 by {
                    if i > 0 {
                        assert(rest[i - 1] is V6);
                    }
                }
            } else {
                let a = first_ipv4(rest)->0;
                let i = choose|i: int|
                    0 <= i < rest.len() && rest[i] == ResolvedAddr::V4(a) && forall|j: int|
                        0 <= j < i ==> rest[j] is V6;
                assert(answers[i + 1] == ResolvedAddr::V4(a));
                assert forall|j: int| 0 <= j < i + 1 implies answers[j] is V6 by {
                    if j > 0 {
                        assert(rest[j - 1] is V6);
                    }
                }
            }
        }
    }
}

/// Picks the first IPv4 address among the answers of a lookup.
pub fn select_ipv4(answers: &Vec<ResolvedAddr>) -> (r: Option<u32>)
    ensures
        r == first_ipv4(answers@),
{
    let mut i: usize = 0;
    proof {
        assert(answers@.skip(0) =~= answers@);
    }
    while i < answers.len()
        invariant
            i <= answers@.len(),
            first_ipv4(answers@) == first_ipv4(answers@.skip(i as int)),
        decreases answers@.len() - i,
    {
        proof {
            assert(answers@.skip(i as int).drop_first() =~= answers@.skip(i + 1));
        }
        match answers[i] {
            ResolvedAddr::V4(a) => {
                return Some(a);
            },
            ResolvedAddr::V6 => {},
        }
        i += 1;
    }
    None
}

/// What a host name expands to, by the outcome of its lookup.
pub open spec fn hostname_expansion(lookup: Lookup) -> Result<Seq<u32>, ExpansionError> {
    match lookup {
        Lookup::Skipped => Err(ExpansionError::TargetParseError),
        Lookup::Failed => Err(ExpansionError::ResolutionError),
        Lookup::Answered(answers) => match first_ipv4(answers@) {
            Some(a) => Ok(seq![a]),
            None => Err(ExpansionError::ResolutionError),
        },
    }
}

/// The hosts that a target stands for, or why it stands for none. The
/// outcome of the lookup counts for a host name and for no other target.
pub open spec fn expansion(target: TargetSpec, lookup: Lookup) -> Result<
    Seq<u32>,
    ExpansionError,
> {
    match target {
        TargetSpec::SingleAddress(a) => Ok(seq![a]),
        TargetSpec::NetworkBlock(b) => Ok(hosts_of(b.spec_addr(), b.spec_prefix())),
        TargetSpec::Hostname => hostname_expansion(lookup),
    }
}

/// `expansion`, from what the parser read from the text of the target and
/// whether the text holds a `/`.
pub open spec fn text_expansion(parsed: Option<(u32, u8)>, slash: bool, lookup: Lookup) -> Result<
    Seq<u32>,
    ExpansionError,
> {
    match parsed {
        Some((addr, prefix)) => if prefix > ADDRESS_BITS {
            hostname_expansion(lookup)
        } else if slash {
            Ok(hosts_of(addr, prefix))
        } else {
            Ok(seq![addr])
        },
        None => hostname_expansion(lookup),
    }
}

/// The outcome of an expansion, with the host set as the list of its hosts.
pub open spec fn outcome_view(r: Result<HostSet, ExpansionError>) -> Result<
    Seq<u32>,
    ExpansionError,
> {
    match r {
        Ok(hosts) => Ok(hosts@),
        Err(e) => Err(e),
    }
}

/// Expands a target into the hosts to probe.
///
/// `lookup` is read for a host name only. For a block and for a single
/// address the expansion always succeeds.
pub fn expand_target(target: &TargetSpec, lookup: &Lookup) -> (r: Result<HostSet, ExpansionError>)
    ensures
        outcome_view(r) == expansion(*target, *lookup),
        r matches Ok(hosts) ==> hosts.wf(),
{
    match target {
        TargetSpec::SingleAddress(a) => {
            let mut one: Vec<u32> = Vec::new();
            one.push(*a);
            HostSet::new(one)
        },
        TargetSpec::NetworkBlock(b) => HostSet::new(b.hosts()),
        TargetSpec::Hostname => match lookup {
            Lookup::Skipped => Err(ExpansionError::TargetParseError),
            Lookup::Failed => Err(ExpansionError::ResolutionError),
            Lookup::Answered(answers) => match select_ipv4(answers) {
                Some(a) => {
                    let mut one: Vec<u32> = Vec::new();
                    one.push(a);
                    HostSet::new(one)
                },
                None => Err(ExpansionError::ResolutionError),
            },
        },
    }
}

/// Expands the text of a target into the hosts to probe.
///
/// `lookup` is the outcome of looking the text up as a host name. It is read
/// only where the text is neither a block nor an address, so a caller that
/// knows this from `classify` may pass `Lookup::Skipped` for the others.
pub fn expand(text: &str, lookup: &Lookup) -> (r: Result<HostSet, ExpansionError>)
    ensures
        outcome_view(r) == text_expansion(parsed_block(text@), text@.contains('/'), *lookup),
        r matches Ok(hosts) ==> hosts.wf(),
{
    let target: TargetSpec = classify(text);
    expand_target(&target, lookup)
}

/// Expanding is repeatable: the same text with the same lookup outcome
/// gives the same hosts in the same order, or the same error, every time.
pub proof fn lemma_expand_is_repeatable(
    text: Seq<char>,
    lookup: Lookup,
    first: Result<HostSet, ExpansionError>,
    second: Result<HostSet, ExpansionError>,
)
    requires
        outcome_view(first) == text_expansion(parsed_block(text), text.contains('/'), lookup),
        outcome_view(second) == text_expansion(parsed_block(text), text.contains('/'), lookup),
    ensures
        first is Ok <==> second is Ok,
        first is Ok ==> first->Ok_0@ == second->Ok_0@,
        first is Err ==> first->Err_0 == second->Err_0,
{
}

/// The same holds of a target that was classified before: it expands to
/// the same hosts in the same order, or to the same error, every time.
pub proof fn lemma_expand_target_is_repeatable(
    target: TargetSpec,
    lookup: Lookup,
    first: Result<HostSet, ExpansionError>,
    second: Result<HostSet, ExpansionError>,
)
    requires
        outcome_view(first) == expansion(target, lookup),
        outcome_view(second) == expansion(target, lookup),
    ensures
        first is Ok <==> second is Ok,
        first is Ok ==> first->Ok_0@ == second->Ok_0@,
        first is Err ==> first->Err_0 == second->Err_0,
{
}

/// Expanding a text is classifying it and expanding the target.
pub proof fn lemma_text_expansion_is_expansion(
    parsed: Option<(u32, u8)>,
    slash: bool,
    target: TargetSpec,
    lookup: Lookup,
)
    requires
        classifies_as(parsed, slash, target),
    ensures
        text_expansion(parsed, slash, lookup) == expansion(target, lookup),
{
}

/// A text stands for one target only.
pub proof fn lemma_classification_is_unique(
    parsed: Option<(u32, u8)>,
    slash: bool,
    first: TargetSpec,
    second: TargetSpec,
)
    requires
        classifies_as(parsed, slash, first),
        classifies_as(parsed, slash, second),
    ensures
        first == second,
{
    if let TargetSpec::NetworkBlock(a) = first {
        if let TargetSpec::NetworkBlock(b) = second {
            crate::block::lemma_block_is_its_parts(a, b);
        }
    }
}

/// No expansion succeeds without a host, and none fails for want of hosts:
/// a block of any size has at least one.
pub proof fn lemma_expansion_has_hosts(target: TargetSpec, lookup: Lookup)
    requires
        target matches TargetSpec::NetworkBlock(b) ==> b.wf(),
    ensures
        expansion(target, lookup) matches Ok(hosts) ==> hosts.len() >= 1,
        expansion(target, lookup) != Err::<Seq<u32>, ExpansionError>(ExpansionError::EmptyHostSet),
{
    if let TargetSpec::NetworkBlock(b) = target {
        crate::block::lemma_small_block_sizes(b.spec_prefix());
    }
}

} // verus!
