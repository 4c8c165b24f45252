//! The IPv4 address value: a 32-bit unsigned integer in network byte
//! order, packed from four octets most-significant first.

use vstd::prelude::*;

use crate::mask::{host_v4, lemma_v4_network_facts, mask_of_prefix_v4, mask_v4};
use crate::pool_v4::Ipv4Pool;
use crate::SubnetworkError;

verus! {

/// An IPv4 address as its packed 32-bit value. Immutable once built;
/// equality and ordering are those of the packed integer.
#[derive(Debug, Clone, Copy, PartialEq, Eq, Structural, Hash, PartialOrd, Ord)]
pub struct Ipv4AddrExt {
    addr: u32,
}

impl View for Ipv4AddrExt {
    type V = u32;

    closed spec fn view(&self) -> u32 {
        self.addr
    }
}

/// The two addresses agree on their top `k` bits.
pub open spec fn v4_shares_prefix(a: u32, b: u32, k: u8) -> bool
    recommends
        k <= 32,
{
    a & mask_v4(k) == b & mask_v4(k)
}

impl Ipv4AddrExt {
    /// Packs four eight-bit octets, most significant first. Total: every
    /// choice of octets is an address.
    pub fn new(a: u8, b: u8, c: u8, d: u8) -> (r: Ipv4AddrExt)
        ensures
            r@ == (a as int) * 0x100_0000 + (b as int) * 0x1_0000 + (c as int) * 0x100 + (
            d as int),
    {
        let packed: u32 = ((a as u32) << 24u32) | ((b as u32) << 16u32) | ((c as u32) << 8u32) | (
        d as u32);
        proof {
            assert(((a as u32) << 24u32) | ((b as u32) << 16u32) | ((c as u32) << 8u32) | (
            d as u32) == (a as int) * 0x100_0000 + (b as int) * 0x1_0000 + (c as int) * 0x100 + (
            d as int)) by (bit_vector);
        }
        Ipv4AddrExt { addr: packed }
    }

    /// Wraps an already-packed 32-bit value.
    pub fn from_addr(addr: u32) -> (r: Ipv4AddrExt)
        ensures
            r@ == addr,
    {
        Ipv4AddrExt { addr }
    }

    /// The packed 32-bit value.
    pub fn addr(&self) -> (r: u32)
        ensures
            r == self@,
    {
        self.addr
    }

    /// The network address of the block of prefix length `prefix` that
    /// holds this address: the address with every host bit cleared.
    /// Fails exactly when the prefix length exceeds 32.
    pub fn network_address(&self, prefix: u8) -> (r: Result<Ipv4AddrExt, SubnetworkError>)
        ensures
            prefix <= 32 ==> (r matches Ok(x) && x@ == (self@ & mask_v4(prefix))),
            prefix > 32 ==> (r matches Err(e)
                && e matches SubnetworkError::InvalidPrefixLength { prefix: pp, max } && pp
                == prefix && max == 32),
    {
        if prefix > 32 {
            Err(SubnetworkError::InvalidPrefixLength { prefix, max: 32 })
        } else {
            Ok(Ipv4AddrExt { addr: self.addr & mask_of_prefix_v4(prefix) })
        }
    }

    /// The broadcast address of the block of prefix length `prefix`
    /// that holds this address: the address with every host bit set.
    /// Fails exactly when the prefix length exceeds 32.
    pub fn broadcast_address(&self, prefix: u8) -> (r: Result<Ipv4AddrExt, SubnetworkError>)
        ensures
            prefix <= 32 ==> (r matches Ok(x) && x@ == (self@ & mask_v4(prefix)) + host_v4(
                prefix,
            )),
            prefix > 32 ==> (r matches Err(e)
                && e matches SubnetworkError::InvalidPrefixLength { prefix: pp, max } && pp
                == prefix && max == 32),
    {
        if prefix > 32 {
            Err(SubnetworkError::InvalidPrefixLength { prefix, max: 32 })
        } else {
            let m = mask_of_prefix_v4(prefix);
            proof {
                lemma_v4_network_facts(prefix, self@);
            }
            Ok(Ipv4AddrExt { addr: (self.addr & m) + !m })
        }
    }

    /// Whether this address lies in the block: the containment test of
    /// the pool, seen from the address.
    pub fn is_within(&self, block: &Ipv4Pool) -> (r: bool)
        requires
            block.wf(),
        ensures
            r == block.contains_spec(self@),
    {
        block.contain(*self)
    }

    /// The number of leading bits this address shares with `target`: the
    /// largest `k` such that both agree under the mask of prefix length
    /// `k`. It is 32 exactly on equal addresses and 0 when the top bits
    /// already differ.
    pub fn largest_identical_prefix(&self, target: Ipv4AddrExt) -> (r: u8)
        ensures
            r <= 32,
            forall|k: u8| k <= r ==> v4_shares_prefix(self@, target@, k),
            r < 32 ==> !v4_shares_prefix(self@, target@, (r + 1) as u8),
            r == 32 <==> self@ == target@,
    {
        let a = self.addr;
        let b = target.addr;
        let mut k: u8 = 0;
        proof {
            crate::mask::lemma_v4_mask_ends(a, b);
        }
        while k < 32
            invariant
                k <= 32,
                a == self@,
                b == target@,
                v4_shares_prefix(a, b, k),
            decreases 32 - k,
        {
            let m = mask_of_prefix_v4(k + 1);
            if a & m != b & m {
                proof {
                    lemma_v4_shared_prefixes_downward(a, b, k);
                }
                return k;
            }
            k = k + 1;
        }
        proof {
            lemma_v4_shared_prefixes_downward(a, b, k);
        }
        k
    }
}

/// Agreement on the top `r` bits is agreement on every shorter prefix
/// as well: what `largest_identical_prefix` returns bounds the whole
/// set of shared prefixes from above.
pub proof fn lemma_v4_shared_prefixes_downward(a: u32, b: u32, r: u8)
    requires
        r <= 32,
        v4_shares_prefix(a, b, r),
    ensures
        forall|k: u8| k <= r ==> v4_shares_prefix(a, b, k),
{
    assert forall|k: u8| k <= r implies v4_shares_prefix(a, b, k) by {
        crate::mask::lemma_v4_mask_agreement_monotone(a, b, k, r);
    }
}

} // verus!
