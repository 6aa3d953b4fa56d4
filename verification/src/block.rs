//! IPv4 address blocks in CIDR form, and the hosts that a scan visits in one.
//!
//! A block is an address and a prefix length of 0 to 32 bits. It spans the
//! `2^(32 - prefix)` addresses that share the address's first `prefix` bits:
//! from its network address, where the other bits are zero, to its broadcast
//! address, where they are one.

use vstd::arithmetic::div_mod::lemma_fundamental_div_mod;
use vstd::arithmetic::power2::*;
use vstd::prelude::*;

verus! {

/// Width of an IPv4 address, and so the longest prefix a block can have.
pub const ADDRESS_BITS: u8 = 32;

/// Number of addresses in a block with the given prefix length.
pub open spec fn block_size(prefix: u8) -> nat
    recommends
        prefix <= ADDRESS_BITS,
{
    pow2((ADDRESS_BITS - prefix) as nat)
}

/// The lowest address of the block that holds `addr`.
pub open spec fn network_of(addr: u32, prefix: u8) -> int
    recommends
        prefix <= ADDRESS_BITS,
{
    addr - (addr as int) % (block_size(prefix) as int)
}

/// The highest address of the block that holds `addr`.
pub open spec fn broadcast_of(addr: u32, prefix: u8) -> int
    recommends
        prefix <= ADDRESS_BITS,
{
    network_of(addr, prefix) + block_size(prefix) - 1
}

/// The addresses of a block that a scan visits, in ascending order.
///
/// A block of four or more addresses gives all of them but its network and
/// its broadcast address. A `/31` block is a point-to-point link, where both
/// addresses are hosts, and a `/32` block is the one host it names.
pub open spec fn hosts_of(addr: u32, prefix: u8) -> Seq<u32>
    recommends
        prefix <= ADDRESS_BITS,
{
    if prefix >= 31 {
        Seq::new(block_size(prefix), |i: int| (network_of(addr, prefix) + i) as u32)
    } else {
        Seq::new(
            (block_size(prefix) - 2) as nat,
            |i: int| (network_of(addr, prefix) + 1 + i) as u32,
        )
    }
}

/// An address together with a prefix length of at most 32 bits.
///
/// The address may have host bits set: `10.1.1.1/24` names the same
/// addresses as `10.1.1.0/24`.
#[derive(Clone, Copy, Debug, PartialEq, Eq)]
pub struct Block {
    addr: u32,
    prefix: u8,
}

impl Block {
    #[verifier::type_invariant]
    spec fn prefix_fits(&self) -> bool {
        self.prefix <= ADDRESS_BITS
    }

    /// The address the block was made with.
    pub closed spec fn spec_addr(&self) -> u32 {
        self.addr
    }

    /// The prefix length the block was made with.
    pub closed spec fn spec_prefix(&self) -> u8 {
        self.prefix
    }

    /// Holds of every block that `new` hands out.
    pub open spec fn wf(&self) -> bool {
        self.spec_prefix() <= ADDRESS_BITS
    }

    /// Makes a block, unless the prefix is longer than an address.
    pub fn new(addr: u32, prefix: u8) -> (r: Option<Block>)
        ensures
            prefix > ADDRESS_BITS ==> r is None,
            prefix <= ADDRESS_BITS ==> r is Some && r->0.spec_addr() == addr && r->0.spec_prefix()
                == prefix && r->0.wf(),
    {
        if prefix > ADDRESS_BITS {
            None
        } else {
            Some(Block { addr, prefix })
        }
    }

    /// The address the block was made with.
    #[verifier::when_used_as_spec(spec_addr)]
    pub fn addr(&self) -> (r: u32)
        ensures
            r == self.spec_addr(),
    {
        self.addr
    }

    /// The prefix length, which is at most 32.
    #[verifier::when_used_as_spec(spec_prefix)]
    pub fn prefix(&self) -> (r: u8)
        ensures
            r == self.spec_prefix(),
            self.wf(),
    {
        proof {
            use_type_invariant(self);
        }
        self.prefix
    }

    /// Number of addresses in the block. The block `/0` has `2^32` of them,
    /// one more than a `u32` holds.
    pub fn size(&self) -> (r: u64)
        ensures
            r == block_size(self.spec_prefix()),
            1 <= r <= 0x1_0000_0000,
    {
        proof {
            use_type_invariant(self);
        }
        let shift: u64 = (ADDRESS_BITS - self.prefix) as u64;
        proof {
            lemma2_to64();
            lemma_pow2_strictly_increases(shift as nat, 33);
            lemma_pow2_pos(shift as nat);
            vstd::bits::lemma_u64_shl_is_mul(1u64, shift);
        }
        1u64 << shift
    }

    /// The lowest address of the block.
    pub fn network(&self) -> (r: u32)
        ensures
            r == network_of(self.spec_addr(), self.spec_prefix()),
    {
        let size: u64 = self.size();
        let addr: u64 = self.addr as u64;
        proof {
            use_type_invariant(self);
            lemma_block_bounds(self.addr, self.prefix);
        }
        (addr - addr % size) as u32
    }

    /// The highest address of the block.
    pub fn broadcast(&self) -> (r: u32)
        ensures
            r == broadcast_of(self.spec_addr(), self.spec_prefix()),
    {
        let size: u64 = self.size();
        let addr: u64 = self.addr as u64;
        proof {
            use_type_invariant(self);
            lemma_block_bounds(self.addr, self.prefix);
        }
        (addr - addr % size + (size - 1)) as u32
    }

    /// Lists the addresses of the block that a scan visits, in ascending
    /// order. The list of a wide block is long: that of a `/8` has some
    /// sixteen million entries.
    pub fn hosts(&self) -> (r: Vec<u32>)
        ensures
            r@ == hosts_of(self.spec_addr(), self.spec_prefix()),
            r@.len() >= 1,
    {
        proof {
            use_type_invariant(self);
            lemma_block_bounds(self.addr, self.prefix);
            lemma_small_block_sizes(self.prefix);
        }
        let network: u64 = self.network() as u64;
        let broadcast: u64 = self.broadcast() as u64;
        let (first, last): (u64, u64) = if self.prefix >= 31 {
            (network, broadcast)
        } else {
            (network + 1, broadcast - 1)
        };
        let mut out: Vec<u32> = Vec::new();
        let mut next: u64 = first;
        while next <= last
            invariant
                first <= next <= last + 1,
                last <= u32::MAX,
                out@ == Seq::new((next - first) as nat, |i: int| (first + i) as u32),
            decreases last + 1 - next,
        {
            out.push(next as u32);
            next += 1;
        }
        out
    }
}

/// Two blocks made with the same address and prefix length are the same block.
pub proof fn lemma_block_is_its_parts(a: Block, b: Block)
    requires
        a.spec_addr() == b.spec_addr(),
        a.spec_prefix() == b.spec_prefix(),
    ensures
        a == b,
{
}

/// A block lies within the address space, and the address it was made with
/// lies within the block.
pub proof fn lemma_block_bounds(addr: u32, prefix: u8)
    requires
        prefix <= ADDRESS_BITS,
    ensures
        0 <= network_of(addr, prefix) <= addr <= broadcast_of(addr, prefix) <= u32::MAX,
        broadcast_of(addr, prefix) - network_of(addr, prefix) == block_size(prefix) - 1,
        1 <= block_size(prefix) <= 0x1_0000_0000,
{
    let k: nat = (ADDRESS_BITS - prefix) as nat;
    let size: int = block_size(prefix) as int;
    let a: int = addr as int;
    lemma2_to64();
    lemma_pow2_pos(k);
    if k < 32 {
        lemma_pow2_strictly_increases(k, 32);
    }
    lemma_pow2_adds(k, (32 - k) as nat);
    lemma_pow2_pos((32 - k) as nat);
    // The address space is a whole number of blocks of this size, so the
    // block that holds `addr` ends inside it.
    let blocks: int = pow2((32 - k) as nat) as int;
    assert(size * blocks == 0x1_0000_0000);
    lemma_fundamental_div_mod(a, size);
    let q: int = a / size;
    assert(a - a % size == size * q);
    assert(q < blocks) by (nonlinear_arith)
        requires
            size * q <= a,
            a < size * blocks,
            size > 0,
    ;
    assert(size * q + size <= size * blocks) by (nonlinear_arith)
        requires
            q < blocks,
            size > 0,
    ;
}

/// The netmask of a prefix length: ones in the first `prefix` bits, zeros
/// in the host bits after them.
pub open spec fn mask_of(prefix: u8) -> u32
    recommends
        prefix <= ADDRESS_BITS,
{
    if prefix == 0 {
        0u32
    } else {
        u32::MAX << ((ADDRESS_BITS - prefix) as u32)
    }
}

/// The network address is the address with its host bits cleared, and the
/// broadcast address is the address with its host bits set.
pub proof fn lemma_block_ends_by_mask(addr: u32, prefix: u8)
    requires
        prefix <= ADDRESS_BITS,
    ensures
        network_of(addr, prefix) == addr & mask_of(prefix),
        broadcast_of(addr, prefix) == addr | !mask_of(prefix),
{
    let shift: u64 = (ADDRESS_BITS - prefix) as u64;
    let size: u64 = 1u64 << shift;
    let wide: u64 = addr as u64;
    let blocks_below: u64 = wide >> shift;
    let mask: u32 = mask_of(prefix);
    lemma2_to64();
    lemma_pow2_strictly_increases(shift as nat, 33);
    lemma_pow2_pos(shift as nat);
    lemma_block_bounds(addr, prefix);
    lemma_fundamental_div_mod(wide as int, block_size(prefix) as int);
    // Shifting right and left again clears the host bits, and in numbers it
    // divides by the size of the block and multiplies by it again.
    vstd::bits::lemma_u64_shl_is_mul(1u64, shift);
    vstd::bits::lemma_u64_shr_is_div(wide, shift);
    vstd::arithmetic::mul::lemma_mul_is_commutative(
        blocks_below as int,
        block_size(prefix) as int,
    );
    vstd::bits::lemma_u64_shl_is_mul(blocks_below, shift);
    assert(blocks_below << shift == network_of(addr, prefix));
    assert(blocks_below << shift == (addr & mask) as u64 && (blocks_below << shift) + (size - 1)
        == (addr | !mask) as u64) by (bit_vector)
        requires
            shift <= 32,
            size == 1u64 << shift,
            wide == addr as u64,
            blocks_below == wide >> shift,
            mask == if shift == 32 {
                0u32
            } else {
                0xffff_ffffu32 << (shift as u32)
            },
    ;
}

/// The sizes of the two smallest kinds of block, and a bound for the others.
pub proof fn lemma_small_block_sizes(prefix: u8)
    requires
        prefix <= ADDRESS_BITS,
    ensures
        prefix == 32 ==> block_size(prefix) == 1,
        prefix == 31 ==> block_size(prefix) == 2,
        prefix <= 30 ==> block_size(prefix) >= 4,
{
    let k: nat = (ADDRESS_BITS - prefix) as nat;
    lemma2_to64();
    if k > 2 {
        lemma_pow2_strictly_increases(2, k);
    }
}

/// In a block of four or more addresses, the hosts are the addresses of the
/// block without its network and its broadcast address: `2^(32 - prefix) - 2`
/// of them, each once, in ascending order.
pub proof fn lemma_hosts_exclude_block_ends(addr: u32, prefix: u8)
    requires
        prefix < 31,
    ensures
        hosts_of(addr, prefix).len() == pow2((32 - prefix) as nat) - 2,
        forall|a: u32|
            hosts_of(addr, prefix).contains(a) <==> (network_of(addr, prefix) <= a <= broadcast_of(
                addr,
                prefix,
            ) && a != network_of(addr, prefix) && a != broadcast_of(addr, prefix)),
        forall|i: int, j: int|
            0 <= i < j < hosts_of(addr, prefix).len() ==> hosts_of(addr, prefix)[i] < hosts_of(
                addr,
                prefix,
            )[j],
{
    lemma_block_bounds(addr, prefix);
    lemma_small_block_sizes(prefix);
    let hosts = hosts_of(addr, prefix);
    let network = network_of(addr, prefix);
    let broadcast = broadcast_of(addr, prefix);
    assert forall|a: u32| hosts.contains(a) <==> (network <= a <= broadcast && a != network && a
        != broadcast) by {
        if network < a < broadcast {
            let i: int = a - network - 1;
            assert(hosts[i] == a);
        }
    }
}

/// A `/31` block gives its two addresses, the network address first; a `/32`
/// block gives the address it was made with, which is its network address.
pub proof fn lemma_hosts_of_smallest_blocks(addr: u32, prefix: u8)
    requires
        prefix == 31 || prefix == 32,
    ensures
        prefix == 31 ==> hosts_of(addr, prefix) == seq![
            network_of(addr, prefix) as u32,
            broadcast_of(addr, prefix) as u32,
        ] && broadcast_of(addr, prefix) == network_of(addr, prefix) + 1,
        prefix == 32 ==> hosts_of(addr, prefix) == seq![addr] && network_of(addr, prefix) == addr
            && broadcast_of(addr, prefix) == addr,
{
    lemma_block_bounds(addr, prefix);
    lemma_small_block_sizes(prefix);
    if prefix == 31 {
        assert(hosts_of(addr, prefix) =~= seq![
            network_of(addr, prefix) as u32,
            broadcast_of(addr, prefix) as u32,
        ]);
    } else {
        assert(hosts_of(addr, prefix) =~= seq![addr]);
    }
}

} // verus!
