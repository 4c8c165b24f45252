//! The IPv6 CIDR block: a network address, its mask, and a one-shot
//! forward cursor over every address of the block. A block of prefix
//! length 0 holds `2^128` addresses — one more than any 128-bit counter
//! can hold — so exhaustion is an explicit flag rather than a stop
//! counter.

use vstd::prelude::*;

use crate::addr_v6::Ipv6AddrExt;
use crate::mask::{
    block_v6, host_v6, lemma_v6_block_is_host_plus_one, lemma_v6_contains_iff_interval,
    lemma_v6_network_facts, mask_of_prefix_v6, mask_v6,
};
use crate::SubnetworkError;

verus! {

/// A CIDR block of IPv6 addresses. The block is determined by the
/// network address and the mask alone: any address inside the block
/// constructs the same pool. The cursor is the only mutable part and is
/// private to the iteration contract.
#[derive(Debug, Clone, Copy, PartialEq, Eq, Structural)]
pub struct Ipv6Pool {
    prefix: u128,
    mask: u128,
    plen: u8,
    next: u128,
    done: bool,
}

impl Ipv6Pool {
    /// The prefix length of the block.
    pub closed spec fn prefix_len(&self) -> u8 {
        self.plen
    }

    /// The network address: the lowest address of the block.
    pub closed spec fn network_spec(&self) -> u128 {
        self.prefix
    }

    /// The prefix mask.
    pub closed spec fn mask_spec(&self) -> u128 {
        self.mask
    }

    /// The offset of the next address to yield.
    pub closed spec fn cursor(&self) -> u128 {
        self.next
    }

    /// Whether the cursor has yielded every address of the block.
    pub closed spec fn exhausted(&self) -> bool {
        self.done
    }

    /// Internal consistency: the mask belongs to the prefix length, the
    /// network address has no host bits, and the cursor offset never
    /// passes the host mask.
    pub open spec fn wf(&self) -> bool {
        &&& self.prefix_len() <= 128
        &&& self.mask_spec() == mask_v6(self.prefix_len())
        &&& self.network_spec() & self.mask_spec() == self.network_spec()
        &&& self.cursor() <= host_v6(self.prefix_len())
    }

    /// The highest address of the block: the network address plus the
    /// host mask. The domain has no broadcast concept; this is simply
    /// the last address.
    pub open spec fn last_spec(&self) -> int {
        self.network_spec() + host_v6(self.prefix_len())
    }

    /// The number of addresses of the block, `2^(128 - prefix_len)`,
    /// stated over `int` because at prefix length 0 it is `2^128`.
    pub open spec fn block_size_spec(&self) -> int {
        block_v6(self.prefix_len())
    }

    /// The membership test of the block: the address agrees with the
    /// network on every mask bit.
    pub open spec fn contains_spec(&self, x: u128) -> bool {
        x & self.mask_spec() == self.network_spec()
    }

    /// How many addresses the cursor has yet to yield.
    pub open spec fn remaining_count(&self) -> int {
        if self.exhausted() {
            0
        } else {
            host_v6(self.prefix_len()) - self.cursor() + 1
        }
    }

    /// The addresses the cursor has yet to yield, in the order it will
    /// yield them.
    pub open spec fn remaining(&self) -> Seq<int> {
        Seq::new(
            self.remaining_count() as nat,
            |i: int| self.network_spec() + self.cursor() + i,
        )
    }

    /// The pool that `(addr, prefix)` determines: the fields are a
    /// function of the two arguments and of nothing else.
    pub closed spec fn from_parts_spec(addr: u128, prefix: u8) -> Ipv6Pool {
        Ipv6Pool {
            prefix: addr & mask_v6(prefix),
            mask: mask_v6(prefix),
            plen: prefix,
            next: 0,
            done: false,
        }
    }

    /// Builds the block of prefix length `prefix` around `addr`.
    /// Succeeds on every prefix length up to 128 — a zero prefix length
    /// yields the whole address space — and fails exactly when the
    /// prefix length exceeds 128. The result is insensitive to which
    /// address inside the block was given: only `addr & mask` is kept.
    pub fn new(addr: Ipv6AddrExt, prefix: u8) -> (r: Result<Ipv6Pool, SubnetworkError>)
        ensures
            prefix <= 128 ==> (r matches Ok(pool) && pool == Ipv6Pool::from_parts_spec(
                addr@,
                prefix,
            ) && pool.wf() && pool.prefix_len() == prefix && pool.network_spec() == (addr@
                & mask_v6(prefix)) && pool.cursor() == 0 && !pool.exhausted()),
            prefix > 128 ==> (r matches Err(e)
                && e matches SubnetworkError::InvalidPrefixLength { prefix: pp, max } && pp
                == prefix && max == 128),
    {
        if prefix > 128 {
            return Err(SubnetworkError::InvalidPrefixLength { prefix, max: 128 });
        }
        let mask = mask_of_prefix_v6(prefix);
        let network = addr.addr() & mask;
        proof {
            lemma_v6_network_facts(prefix, addr@);
        }
        Ok(Ipv6Pool { prefix: network, mask, plen: prefix, next: 0, done: false })
    }

    /// Yields the next address of the block, or nothing once every
    /// address has been yielded. The sequence runs from the network
    /// address to the last address, strictly increasing, with no gaps;
    /// once exhausted it stays exhausted.
    pub fn next(&mut self) -> (r: Option<Ipv6AddrExt>)
        requires
            old(self).wf(),
        ensures
            final (self).wf(),
            final (self).prefix_len() == old(self).prefix_len(),
            final (self).network_spec() == old(self).network_spec(),
            final (self).mask_spec() == old(self).mask_spec(),
            old(self).exhausted() ==> r is None && *final (self) == *old(self),
            !old(self).exhausted() ==> (r matches Some(x) && x@ == old(self).network_spec() + old(
                self,
            ).cursor() && final (self).remaining_count() == old(self).remaining_count() - 1),
            !old(self).exhausted() && old(self).cursor() < host_v6(old(self).prefix_len()) ==> (
            !final (self).exhausted() && final (self).cursor() == old(self).cursor() + 1),
            !old(self).exhausted() && old(self).cursor() == host_v6(old(self).prefix_len())
                ==> final (self).exhausted(),
    {
        if self.done {
            None
        } else {
            proof {
                lemma_v6_network_facts(self.plen, self.prefix);
            }
            let ret = self.prefix + self.next;
            if self.next == !self.mask {
                self.done = true;
            } else {
                self.next = self.next + 1;
            }
            Some(Ipv6AddrExt::from_addr(ret))
        }
    }

    /// Collects every address the cursor has yet to yield. On a fresh
    /// pool this is the whole block: `2^(128 - prefix_len)` addresses,
    /// strictly increasing from the network address to the last
    /// address. The pool itself is left untouched; a copy is consumed.
    pub fn to_vec(&self) -> (r: Vec<Ipv6AddrExt>)
        requires
            self.wf(),
        ensures
            r@.len() == self.remaining_count(),
            forall|i: int|
                0 <= i < r@.len() ==> (#[trigger] r@[i])@ == self.network_spec() + self.cursor()
                    + i,
    {
        let mut cur = *self;
        let mut out: Vec<Ipv6AddrExt> = Vec::new();
        while !cur.done
            invariant
                cur.wf(),
                cur.prefix_len() == self.prefix_len(),
                cur.network_spec() == self.network_spec(),
                cur.mask_spec() == self.mask_spec(),
                out@.len() + cur.remaining_count() == self.remaining_count(),
                !cur.exhausted() ==> cur.cursor() == self.cursor() + out@.len(),
                forall|i: int|
                    0 <= i < out@.len() ==> (#[trigger] out@[i])@ == self.network_spec()
                        + self.cursor() + i,
            decreases cur.remaining_count(),
        {
            let x = cur.next();
            match x {
                Some(a) => out.push(a),
                None => (),
            }
        }
        out
    }

    /// Whether the block holds this address: true exactly on the
    /// addresses between the network address and the last address.
    pub fn contain(&self, addr: Ipv6AddrExt) -> (r: bool)
        requires
            self.wf(),
        ensures
            r == self.contains_spec(addr@),
            r <==> self.network_spec() <= addr@ <= self.last_spec(),
    {
        proof {
            lemma_v6_contains_iff_interval(self.plen, self.prefix, addr@);
        }
        addr.addr() & self.mask == self.prefix
    }

    /// The network address: the lowest address of the block.
    pub fn network(&self) -> (r: Ipv6AddrExt)
        ensures
            r@ == self.network_spec(),
    {
        Ipv6AddrExt::from_addr(self.prefix)
    }

    /// The last address of the block: the network address with every
    /// host bit set.
    pub fn last_address(&self) -> (r: Ipv6AddrExt)
        requires
            self.wf(),
        ensures
            r@ == self.last_spec(),
    {
        proof {
            lemma_v6_network_facts(self.plen, self.prefix);
        }
        Ipv6AddrExt::from_addr(self.prefix + !self.mask)
    }

    /// The number of addresses of the block: `2^(128 - prefix_len)`.
    /// At prefix length 0 that count is `2^128`, which no 128-bit value
    /// can hold, so this query asks for a prefix length of at least 1;
    /// `block_size_spec` states the count for every block.
    pub fn len(&self) -> (r: u128)
        requires
            self.wf(),
            self.prefix_len() >= 1,
        ensures
            r == self.block_size_spec(),
    {
        proof {
            lemma_v6_block_is_host_plus_one(self.plen);
        }
        1u128 << ((128 - self.plen) as u32)
    }

    /// The number of addresses of the block; `len` under the name the
    /// size query is usually known by.
    pub fn block_size(&self) -> (r: u128)
        requires
            self.wf(),
            self.prefix_len() >= 1,
        ensures
            r == self.block_size_spec(),
    {
        self.len()
    }

    /// The prefix length of the block.
    pub fn prefix_length(&self) -> (r: u8)
        ensures
            r == self.prefix_len(),
    {
        self.plen
    }

    /// The conventional count of the block size less two. The convention
    /// stems from IPv4 network/broadcast semantics and is kept here only
    /// for interface symmetry; it asks for a block that holds at least
    /// two addresses. At a zero prefix length the count is `2^128 - 2`,
    /// which still fits, and is reached through the host mask because
    /// the block size itself does not.
    pub fn usable_count(&self) -> (r: u128)
        requires
            self.wf(),
            self.prefix_len() <= 127,
        ensures
            r == self.block_size_spec() - 2,
    {
        if self.plen == 0 {
            proof {
                assert(host_v6(0) == u128::MAX) by (bit_vector);
            }
            u128::MAX - 1
        } else {
            proof {
                lemma_v6_block_is_host_plus_one(self.plen);
                let p = self.plen;
                assert(1 <= p <= 127 ==> (1u128 << ((128 - p) as u32)) >= 2) by (bit_vector);
            }
            (1u128 << ((128 - self.plen) as u32)) - 2
        }
    }
}

/// Block size law: a fresh pool has exactly `2^(128 - prefix_len)`
/// addresses to yield, the element at offset `i` is `network + i`, the
/// sequence is strictly increasing, and it runs from the network address
/// to the last address.
pub proof fn lemma_v6_block_enumeration(pool: Ipv6Pool)
    requires
        pool.wf(),
        pool.cursor() == 0,
        !pool.exhausted(),
    ensures
        pool.remaining().len() == block_v6(pool.prefix_len()),
        forall|i: int|
            0 <= i < pool.remaining().len() ==> #[trigger] pool.remaining()[i]
                == pool.network_spec() + i,
        forall|i: int, j: int|
            0 <= i < j < pool.remaining().len() ==> #[trigger] pool.remaining()[i]
                < #[trigger] pool.remaining()[j],
        pool.remaining().first() == pool.network_spec(),
        pool.remaining().last() == pool.last_spec(),
{
    lemma_v6_block_is_host_plus_one(pool.prefix_len());
}

/// Containment law: the membership test accepts exactly the interval
/// from the network address to the last address, and in particular every
/// address the cursor yields, each of which lies in that interval.
pub proof fn lemma_v6_containment(pool: Ipv6Pool, x: u128)
    requires
        pool.wf(),
    ensures
        pool.contains_spec(x) <==> pool.network_spec() <= x <= pool.last_spec(),
        forall|i: int|
            0 <= i < pool.remaining().len() ==> pool.contains_spec(
                (#[trigger] pool.remaining()[i]) as u128,
            ),
{
    lemma_v6_contains_iff_interval(pool.prefix_len(), pool.network_spec(), x);
    assert forall|i: int| 0 <= i < pool.remaining().len() implies pool.contains_spec(
        (#[trigger] pool.remaining()[i]) as u128,
    ) by {
        let e = pool.remaining()[i];
        lemma_v6_network_facts(pool.prefix_len(), pool.network_spec());
        assert(pool.network_spec() <= e <= pool.last_spec());
        assert(e == e as u128);
        lemma_v6_contains_iff_interval(pool.prefix_len(), pool.network_spec(), e as u128);
    }
}

/// Insensitivity law: the pool does not remember which of the block's
/// addresses built it. Two constructing addresses that agree under the
/// mask determine the very same pool.
pub proof fn lemma_v6_pool_insensitive(a1: u128, a2: u128, prefix: u8)
    requires
        prefix <= 128,
        a1 & mask_v6(prefix) == a2 & mask_v6(prefix),
    ensures
        Ipv6Pool::from_parts_spec(a1, prefix) == Ipv6Pool::from_parts_spec(a2, prefix),
{
}

/// Idempotence law: two pools built from the same address and prefix
/// length are the same pool — same network, mask, block size, and the
/// same iteration sequence.
pub proof fn lemma_v6_pool_idempotent(p1: Ipv6Pool, p2: Ipv6Pool, addr: u128, prefix: u8)
    requires
        p1 == Ipv6Pool::from_parts_spec(addr, prefix),
        p2 == Ipv6Pool::from_parts_spec(addr, prefix),
    ensures
        p1 == p2,
        p1.network_spec() == p2.network_spec(),
        p1.mask_spec() == p2.mask_spec(),
        p1.block_size_spec() == p2.block_size_spec(),
        p1.remaining() =~= p2.remaining(),
{
}

} // verus!
