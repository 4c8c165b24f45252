//! The IPv4 CIDR block: a network address, its mask, and a one-shot
//! forward cursor over every address of the block, network and last
//! address included.

use vstd::prelude::*;

use crate::addr_v4::Ipv4AddrExt;
use crate::mask::{
    block_v4, host_v4, lemma_v4_block_is_host_plus_one, lemma_v4_contains_iff_interval,
    lemma_v4_network_facts, mask_of_prefix_v4, mask_v4,
};
use crate::text::{
    cidr_v4_decomp, cidr_v4_matches, dec_str_u8, lemma_cidr_v4_one_slash, one_slash, slash_at,
    v4_text, v4_text_matches, valid_prefix_text,
};
use crate::SubnetworkError;

verus! {

/// A CIDR block of IPv4 addresses. The block is determined by the network
/// address and the mask alone: any address inside the block constructs
/// the same pool. The cursor is the only mutable part and is private to
/// the iteration contract. The cursor and the stop bound are held in 64
/// bits because a block of prefix length 0 holds `2^32` addresses, one
/// more than 32 bits can count.
#[derive(Debug, Clone, Copy, PartialEq, Eq, Structural)]
pub struct Ipv4Pool {
    prefix: u32,
    mask: u32,
    plen: u8,
    next: u64,
    stop: u64,
}

impl Ipv4Pool {
    /// The prefix length of the block.
    pub closed spec fn prefix_len(&self) -> u8 {
        self.plen
    }

    /// The network address: the lowest address of the block.
    pub closed spec fn network_spec(&self) -> u32 {
        self.prefix
    }

    /// The prefix mask.
    pub closed spec fn mask_spec(&self) -> u32 {
        self.mask
    }

    /// How many addresses the cursor has already yielded.
    pub closed spec fn cursor(&self) -> u64 {
        self.next
    }

    /// The total number of addresses of the block.
    pub closed spec fn limit(&self) -> u64 {
        self.stop
    }

    /// Internal consistency: the mask and the stop bound belong to the
    /// prefix length, the network address has no host bits, and the
    /// cursor never passes the stop bound.
    pub open spec fn wf(&self) -> bool {
        &&& self.prefix_len() <= 32
        &&& self.mask_spec() == mask_v4(self.prefix_len())
        &&& self.network_spec() & self.mask_spec() == self.network_spec()
        &&& self.limit() == block_v4(self.prefix_len())
        &&& self.cursor() <= self.limit()
    }

    /// The highest address of the block: the network address plus the
    /// host mask.
    pub open spec fn last_spec(&self) -> int {
        self.network_spec() + host_v4(self.prefix_len())
    }

    /// The number of addresses of the block, `2^(32 - prefix_len)`.
    pub open spec fn block_size_spec(&self) -> u64 {
        block_v4(self.prefix_len())
    }

    /// The membership test of the block: the address agrees with the
    /// network on every mask bit.
    pub open spec fn contains_spec(&self, x: u32) -> bool {
        x & self.mask_spec() == self.network_spec()
    }

    /// The addresses the cursor has yet to yield, in the order it will
    /// yield them.
    pub open spec fn remaining(&self) -> Seq<int> {
        Seq::new(
            (self.limit() - self.cursor()) as nat,
            |i: int| self.network_spec() + self.cursor() + i,
        )
    }

    /// The pool that `(addr, prefix)` determines: the fields are a
    /// function of the two arguments and of nothing else.
    pub closed spec fn from_parts_spec(addr: u32, prefix: u8) -> Ipv4Pool {
        Ipv4Pool {
            prefix: addr & mask_v4(prefix),
            mask: mask_v4(prefix),
            plen: prefix,
            next: 0,
            stop: block_v4(prefix),
        }
    }

    /// Builds the block of prefix length `prefix` around `addr`. Succeeds
    /// on every prefix length up to 32 — a zero prefix length yields the
    /// whole address space without truncation — and fails exactly when
    /// the prefix length exceeds 32. The result is insensitive to which
    /// address inside the block was given: only `addr & mask` is kept.
    pub fn new(addr: Ipv4AddrExt, prefix: u8) -> (r: Result<Ipv4Pool, SubnetworkError>)
        ensures
            prefix <= 32 ==> (r matches Ok(pool) && pool == Ipv4Pool::from_parts_spec(addr@, prefix)
                && pool.wf() && pool.prefix_len() == prefix && pool.network_spec() == (addr@
                & mask_v4(prefix)) && pool.cursor() == 0 && pool.limit() == block_v4(prefix)),
            prefix > 32 ==> (r matches Err(e)
                && e matches SubnetworkError::InvalidPrefixLength { prefix: pp, max } && pp
                == prefix && max == 32),
    {
        if prefix > 32 {
            return Err(SubnetworkError::InvalidPrefixLength { prefix, max: 32 });
        }
        let mask = mask_of_prefix_v4(prefix);
        let stop = 1u64 << ((32 - prefix) as u64);
        let network = addr.addr() & mask;
        proof {
            lemma_v4_network_facts(prefix, addr@);
        }
        Ok(Ipv4Pool { prefix: network, mask, plen: prefix, next: 0, stop })
    }

    /// Yields the next address of the block, or nothing once every
    /// address has been yielded. The sequence runs from the network
    /// address to the last address, strictly increasing, with no gaps;
    /// once exhausted it stays exhausted.
    pub fn next(&mut self) -> (r: Option<Ipv4AddrExt>)
        requires
            old(self).wf(),
        ensures
            final (self).wf(),
            final (self).prefix_len() == old(self).prefix_len(),
            final (self).network_spec() == old(self).network_spec(),
            final (self).mask_spec() == old(self).mask_spec(),
            final (self).limit() == old(self).limit(),
            old(self).cursor() < old(self).limit() ==> (r matches Some(x) && x@ == old(
                self,
            ).network_spec() + old(self).cursor() && final (self).cursor() == old(self).cursor()
                + 1),
            old(self).cursor() >= old(self).limit() ==> r is None && *final (self) == *old(self),
    {
        if self.next < self.stop {
            proof {
                lemma_v4_block_is_host_plus_one(self.plen);
                lemma_v4_network_facts(self.plen, self.prefix);
            }
            let ret = self.prefix + (self.next as u32);
            self.next = self.next + 1;
            Some(Ipv4AddrExt::from_addr(ret))
        } else {
            None
        }
    }

    /// Collects every address the cursor has yet to yield. On a fresh
    /// pool this is the whole block: `2^(32 - prefix_len)` addresses,
    /// strictly increasing from the network address to the last address.
    /// The pool itself is left untouched; a copy is consumed.
    pub fn to_vec(&self) -> (r: Vec<Ipv4AddrExt>)
        requires
            self.wf(),
        ensures
            r@.len() == self.limit() - self.cursor(),
            forall|i: int|
                0 <= i < r@.len() ==> (#[trigger] r@[i])@ == self.network_spec() + self.cursor()
                    + i,
    {
        let mut cur = *self;
        let mut out: Vec<Ipv4AddrExt> = Vec::new();
        while cur.next < cur.stop
            invariant
                cur.wf(),
                cur.prefix_len() == self.prefix_len(),
                cur.network_spec() == self.network_spec(),
                cur.mask_spec() == self.mask_spec(),
                cur.limit() == self.limit(),
                self.cursor() <= cur.cursor(),
                out@.len() == cur.cursor() - self.cursor(),
                forall|i: int|
                    0 <= i < out@.len() ==> (#[trigger] out@[i])@ == self.network_spec()
                        + self.cursor() + i,
            decreases cur.limit() - cur.cursor(),
        {
            let x = cur.next();
            match x {
                Some(a) => out.push(a),
                None => (),
            }
        }
        out
    }

    /// Whether the block holds this address: true exactly on the
    /// addresses between the network address and the last address.
    pub fn contain(&self, addr: Ipv4AddrExt) -> (r: bool)
        requires
            self.wf(),
        ensures
            r == self.contains_spec(addr@),
            r <==> self.network_spec() <= addr@ <= self.last_spec(),
    {
        proof {
            lemma_v4_contains_iff_interval(self.plen, self.prefix, addr@);
        }
        addr.addr() & self.mask == self.prefix
    }

    /// The network address: the lowest address of the block.
    pub fn network(&self) -> (r: Ipv4AddrExt)
        ensures
            r@ == self.network_spec(),
    {
        Ipv4AddrExt::from_addr(self.prefix)
    }

    /// The broadcast address: the highest address of the block, with
    /// every host bit set.
    pub fn broadcast(&self) -> (r: Ipv4AddrExt)
        requires
            self.wf(),
        ensures
            r@ == self.last_spec(),
    {
        proof {
            lemma_v4_network_facts(self.plen, self.prefix);
        }
        Ipv4AddrExt::from_addr(self.prefix + !self.mask)
    }

    /// The last address of the block; for IPv4 this is the broadcast
    /// address.
    pub fn last_address(&self) -> (r: Ipv4AddrExt)
        requires
            self.wf(),
        ensures
            r@ == self.last_spec(),
    {
        self.broadcast()
    }

    /// The number of addresses of the block, network and broadcast
    /// included: `2^(32 - prefix_len)`, held in 64 bits so that a zero
    /// prefix length counts the whole address space exactly.
    pub fn len(&self) -> (r: u64)
        requires
            self.wf(),
        ensures
            r == self.block_size_spec(),
    {
        self.stop
    }

    /// The number of addresses of the block; `len` under the name the
    /// size query is usually known by.
    pub fn block_size(&self) -> (r: u64)
        requires
            self.wf(),
        ensures
            r == self.block_size_spec(),
    {
        self.len()
    }

    /// The prefix length of the block.
    pub fn prefix_length(&self) -> (r: u8)
        ensures
            r == self.prefix_len(),
    {
        self.plen
    }

    /// The conventional count of assignable hosts: the block size less
    /// the network and broadcast addresses. Defined for blocks that hold
    /// both, that is, up to prefix length 31.
    pub fn usable_count(&self) -> (r: u64)
        requires
            self.wf(),
            self.prefix_len() <= 31,
        ensures
            r == self.block_size_spec() - 2,
    {
        proof {
            let p = self.plen;
            assert(p <= 31 ==> block_v4(p) >= 2) by (bit_vector);
        }
        self.stop - 2
    }
}

impl Ipv4Pool {
    /// Parses `address/prefix` notation: exactly one slash, a
    /// dotted-quad address on its left, a prefix length on its right.
    /// Succeeds on exactly the texts whose shape is well formed and
    /// whose prefix length is at most 32. A malformed shape fails with
    /// the invalid-input error carrying the whole text; a malformed
    /// address with the parse error carrying the address part; a
    /// well-formed prefix above 32 with the prefix-length error.
    pub fn from_str(s: &str) -> (r: Result<Ipv4Pool, SubnetworkError>)
        ensures
            r matches Ok(pool) ==> (exists|a: u32, p: u8|
                (#[trigger] cidr_v4_matches(s@, a, p)) && p <= 32 && pool
                    == Ipv4Pool::from_parts_spec(a, p) && pool.wf() && pool.cursor() == 0),
            (exists|a: u32, p: u8| cidr_v4_matches(s@, a, p) && p <= 32) ==> r is Ok,
            r matches Err(e) ==> !(exists|a: u32, p: u8| cidr_v4_matches(s@, a, p) && p <= 32) && (
            e matches SubnetworkError::InvalidInput { .. }
                || e matches SubnetworkError::AddressParseError { .. }
                || e matches SubnetworkError::InvalidPrefixLength { .. }),
            r matches Err(e) ==> (e matches SubnetworkError::InvalidPrefixLength { prefix, max }
                ==> max == 32 && prefix > 32 && (exists|a: u32| cidr_v4_matches(s@, a, prefix))),
            r matches Err(e) ==> (e matches SubnetworkError::AddressParseError { detail } ==> (
            exists|m: int|
                one_slash(s@, m) && detail@ == s@.subrange(0, m) && (forall|a: u32|
                    !v4_text_matches(s@.subrange(0, m), a)))),
            r matches Err(e) ==> (e matches SubnetworkError::InvalidInput { detail } ==> detail@
                == s@ && ((forall|m: int| !one_slash(s@, m)) || (exists|m: int, a: u32|
                one_slash(s@, m) && v4_text_matches(s@.subrange(0, m), a) && !valid_prefix_text(
                    s@.subrange(m + 1, s@.len() as int),
                )))),
    {
        let (left, right) = match crate::text::split_once_slash(s) {
            Ok(pair) => pair,
            Err(e) => {
                proof {
                    assert forall|a: u32, p: u8| !cidr_v4_matches(s@, a, p) by {
                        if cidr_v4_matches(s@, a, p) {
                            let m2 = choose|m2: int| cidr_v4_decomp(s@, a, p, m2);
                            lemma_cidr_v4_one_slash(s@, a, p, m2);
                        }
                    }
                }
                return Err(e);
            },
        };
        let ghost m = choose|m: int|
            one_slash(s@, m) && left@ == s@.subrange(0, m) && right@ == s@.subrange(
                m + 1,
                s@.len() as int,
            );
        let addr = match Ipv4AddrExt::from_str(left) {
            Ok(addr) => addr,
            Err(e) => {
                proof {
                    assert forall|a: u32, p: u8| !cidr_v4_matches(s@, a, p) by {
                        if cidr_v4_matches(s@, a, p) {
                            let m2 = choose|m2: int| cidr_v4_decomp(s@, a, p, m2);
                            assert(slash_at(s@, m2));
                            assert(m2 == m);
                            assert(v4_text_matches(left@, a));
                        }
                    }
                }
                return Err(e);
            },
        };
        match crate::text::parse_prefix_text(right) {
            None => {
                proof {
                    assert forall|a: u32, p: u8| !cidr_v4_matches(s@, a, p) by {
                        if cidr_v4_matches(s@, a, p) {
                            let m2 = choose|m2: int| cidr_v4_decomp(s@, a, p, m2);
                            assert(slash_at(s@, m2));
                            assert(m2 == m);
                        }
                    }
                    assert(v4_text_matches(s@.subrange(0, m), addr@));
                }
                Err(SubnetworkError::InvalidInput { detail: s.to_owned() })
            },
            Some(p) => {
                proof {
                    assert(cidr_v4_decomp(s@, addr@, p, m));
                    assert(cidr_v4_matches(s@, addr@, p));
                }
                if p > 32 {
                    proof {
                        assert forall|a: u32, p2: u8|
                            cidr_v4_matches(s@, a, p2) implies p2 == p by {
                            let m2 = choose|m2: int| cidr_v4_decomp(s@, a, p2, m2);
                            assert(slash_at(s@, m2));
                            assert(m2 == m);
                        }
                        assert(exists|a: u32| cidr_v4_matches(s@, a, p));
                    }
                    Err(SubnetworkError::InvalidPrefixLength { prefix: p, max: 32 })
                } else {
                    let pool = Ipv4Pool::new(addr, p).unwrap();
                    Ok(pool)
                }
            },
        }
    }

    /// Renders the block as `network/prefix` notation: the canonical
    /// dotted-quad text of the network address, a slash, and the prefix
    /// length in decimal.
    pub fn to_text(&self) -> (r: String)
        requires
            self.wf(),
        ensures
            r@ == v4_text(self.network_spec()) + seq!['/'] + dec_str_u8(self.prefix_len() as int),
    {
        let mut out = self.network().to_text();
        crate::text::push_char(&mut out, '/');
        let ptext = crate::text::u8_to_string(self.plen);
        out.append(ptext.as_str());
        proof {
            assert(out@ =~= v4_text(self.network_spec()) + seq!['/'] + dec_str_u8(
                self.prefix_len() as int,
            ));
        }
        out
    }
}

/// Round trip of the CIDR notation: the text that `to_text` renders
/// for a pool reads back as that pool's network address and prefix
/// length, so parsing it rebuilds an equal fresh pool.
pub proof fn lemma_cidr_v4_text_round_trip(pool: Ipv4Pool)
    requires
        pool.wf(),
    ensures
        cidr_v4_matches(
            v4_text(pool.network_spec()) + seq!['/'] + dec_str_u8(pool.prefix_len() as int),
            pool.network_spec(),
            pool.prefix_len(),
        ),
{
    let a = pool.network_spec();
    let p = pool.prefix_len();
    let s = v4_text(a) + seq!['/'] + dec_str_u8(p as int);
    let m = v4_text(a).len() as int;
    crate::text::lemma_v4_text_round_trip(a);
    crate::text::lemma_dec_str_valid(p as int);
    crate::text::lemma_digits_val_small(dec_str_u8(p as int));
    assert(s.subrange(0, m) =~= v4_text(a));
    assert(s.subrange(m + 1, s.len() as int) =~= dec_str_u8(p as int));
    assert(cidr_v4_decomp(s, a, p, m));
}

/// Block size law: a fresh pool has exactly `2^(32 - prefix_len)`
/// addresses to yield, the element at offset `i` is `network + i`, the
/// sequence is strictly increasing, and it runs from the network address
/// to the last address.
pub proof fn lemma_v4_block_enumeration(pool: Ipv4Pool)
    requires
        pool.wf(),
        pool.cursor() == 0,
    ensures
        pool.remaining().len() == block_v4(pool.prefix_len()),
        forall|i: int|
            0 <= i < pool.remaining().len() ==> #[trigger] pool.remaining()[i]
                == pool.network_spec() + i,
        forall|i: int, j: int|
            0 <= i < j < pool.remaining().len() ==> #[trigger] pool.remaining()[i]
                < #[trigger] pool.remaining()[j],
        pool.remaining().first() == pool.network_spec(),
        pool.remaining().last() == pool.last_spec(),
{
    lemma_v4_block_is_host_plus_one(pool.prefix_len());
}

/// Containment law: the membership test accepts exactly the interval
/// from the network address to the last address, and in particular every
/// address the cursor yields, each of which lies in that interval.
pub proof fn lemma_v4_containment(pool: Ipv4Pool, x: u32)
    requires
        pool.wf(),
    ensures
        pool.contains_spec(x) <==> pool.network_spec() <= x <= pool.last_spec(),
        forall|i: int|
            0 <= i < pool.remaining().len() ==> pool.contains_spec(
                (#[trigger] pool.remaining()[i]) as u32,
            ),
{
    lemma_v4_contains_iff_interval(pool.prefix_len(), pool.network_spec(), x);
    lemma_v4_block_is_host_plus_one(pool.prefix_len());
    assert forall|i: int| 0 <= i < pool.remaining().len() implies pool.contains_spec(
        (#[trigger] pool.remaining()[i]) as u32,
    ) by {
        let e = pool.remaining()[i];
        lemma_v4_network_facts(pool.prefix_len(), pool.network_spec());
        assert(pool.network_spec() <= e <= pool.last_spec());
        assert(e == e as u32);
        lemma_v4_contains_iff_interval(pool.prefix_len(), pool.network_spec(), e as u32);
    }
}

/// Insensitivity law: the pool does not remember which of the block's
/// addresses built it. Two constructing addresses that agree under the
/// mask determine the very same pool.
pub proof fn lemma_v4_pool_insensitive(a1: u32, a2: u32, prefix: u8)
    requires
        prefix <= 32,
        a1 & mask_v4(prefix) == a2 & mask_v4(prefix),
    ensures
        Ipv4Pool::from_parts_spec(a1, prefix) == Ipv4Pool::from_parts_spec(a2, prefix),
{
}

/// Idempotence law: two pools built from the same address and prefix
/// length are the same pool — same network, mask, block size, and the
/// same iteration sequence.
pub proof fn lemma_v4_pool_idempotent(p1: Ipv4Pool, p2: Ipv4Pool, addr: u32, prefix: u8)
    requires
        p1 == Ipv4Pool::from_parts_spec(addr, prefix),
        p2 == Ipv4Pool::from_parts_spec(addr, prefix),
    ensures
        p1 == p2,
        p1.network_spec() == p2.network_spec(),
        p1.mask_spec() == p2.mask_spec(),
        p1.block_size_spec() == p2.block_size_spec(),
        p1.remaining() =~= p2.remaining(),
{
}

} // verus!
