//! The IPv6 address value: a 128-bit unsigned integer packed from eight
//! 16-bit segments, most-significant first, and the solicited-node
//! multicast derivations.

use vstd::prelude::*;

use crate::mask::{host_v6, lemma_v6_network_facts, mask_of_prefix_v6, mask_v6};
use crate::pool_v6::Ipv6Pool;
use crate::SubnetworkError;

verus! {

/// An IPv6 address as its packed 128-bit value. Immutable once built;
/// equality and ordering are those of the packed integer.
#[derive(Debug, Clone, Copy, PartialEq, Eq, Structural, Hash, PartialOrd, Ord)]
pub struct Ipv6AddrExt {
    addr: u128,
}

impl View for Ipv6AddrExt {
    type V = u128;

    closed spec fn view(&self) -> u128 {
        self.addr
    }
}

/// The two addresses agree on their top `k` bits.
pub open spec fn v6_shares_prefix(a: u128, b: u128, k: u8) -> bool
    recommends
        k <= 128,
{
    a & mask_v6(k) == b & mask_v6(k)
}

/// A solicited-node multicast address: the low 24 bits of the unicast
/// address added (integer addition, not bitwise or: a carry out of bit 23
/// is part of the construction) onto a fixed scope base whose low 24 bits
/// are clear.
pub open spec fn solicited_node(base: u128, a: u128) -> int {
    base + (a & 0xFF_FFFF)
}

impl Ipv6AddrExt {
    /// Packs eight 16-bit segments, most significant first. Total: every
    /// choice of segments is an address.
    pub fn new(a: u16, b: u16, c: u16, d: u16, e: u16, f: u16, g: u16, h: u16) -> (r: Ipv6AddrExt)
        ensures
            r@ == (a as int) * 0x1_0000_0000_0000_0000_0000_0000_0000 + (b as int)
                * 0x1_0000_0000_0000_0000_0000_0000 + (c as int) * 0x1_0000_0000_0000_0000_0000 + (
            d as int) * 0x1_0000_0000_0000_0000 + (e as int) * 0x1_0000_0000_0000 + (f as int)
                * 0x1_0000_0000 + (g as int) * 0x1_0000 + (h as int),
    {
        let packed: u128 = ((a as u128) << 112u32) | ((b as u128) << 96u32) | ((c as u128)
            << 80u32) | ((d as u128) << 64u32) | ((e as u128) << 48u32) | ((f as u128) << 32u32) | (
        (g as u128) << 16u32) | (h as u128);
        proof {
            assert(((a as u128) << 112u32) | ((b as u128) << 96u32) | ((c as u128) << 80u32) | ((
            d as u128) << 64u32) | ((e as u128) << 48u32) | ((f as u128) << 32u32) | ((g as u128)
                << 16u32) | (h as u128) == (a as int) * 0x1_0000_0000_0000_0000_0000_0000_0000 + (
            b as int) * 0x1_0000_0000_0000_0000_0000_0000 + (c as int)
                * 0x1_0000_0000_0000_0000_0000 + (d as int) * 0x1_0000_0000_0000_0000 + (e as int)
                * 0x1_0000_0000_0000 + (f as int) * 0x1_0000_0000 + (g as int) * 0x1_0000 + (
            h as int)) by (bit_vector);
        }
        Ipv6AddrExt { addr: packed }
    }

    /// Wraps an already-packed 128-bit value.
    pub fn from_addr(addr: u128) -> (r: Ipv6AddrExt)
        ensures
            r@ == addr,
    {
        Ipv6AddrExt { addr }
    }

    /// The packed 128-bit value.
    pub fn addr(&self) -> (r: u128)
        ensures
            r == self@,
    {
        self.addr
    }

    /// The interface-local scope solicited-node multicast address,
    /// `ff01::1:ff00:0/104` overlaid with the low 24 bits of this address.
    pub fn node_multicast(&self) -> (r: Ipv6AddrExt)
        ensures
            r@ == solicited_node(0xff01_0000_0000_0000_0000_0001_ff00_0000u128, self@),
    {
        Ipv6AddrExt { addr: self.low24_onto(0xff01_0000_0000_0000_0000_0001_ff00_0000u128) }
    }

    /// The link-local scope solicited-node multicast address,
    /// `ff02::1:ff00:0/104` overlaid with the low 24 bits of this address.
    pub fn link_multicast(&self) -> (r: Ipv6AddrExt)
        ensures
            r@ == solicited_node(0xff02_0000_0000_0000_0000_0001_ff00_0000u128, self@),
    {
        Ipv6AddrExt { addr: self.low24_onto(0xff02_0000_0000_0000_0000_0001_ff00_0000u128) }
    }

    /// The site-local scope variant, `ff05::1:ff00:0/104` overlaid with
    /// the low 24 bits of this address. This scope is not part of the
    /// standard solicited-node convention; it is kept for interface
    /// parity.
    pub fn site_multicast(&self) -> (r: Ipv6AddrExt)
        ensures
            r@ == solicited_node(0xff05_0000_0000_0000_0000_0001_ff00_0000u128, self@),
    {
        Ipv6AddrExt { addr: self.low24_onto(0xff05_0000_0000_0000_0000_0001_ff00_0000u128) }
    }

    /// Adds the low 24 bits of this address onto `base`.
    fn low24_onto(&self, base: u128) -> (r: u128)
        requires
            base <= 0xff05_0000_0000_0000_0000_0001_ff00_0000u128,
        ensures
            r == base + (self@ & 0xFF_FFFF),
    {
        let low = self.addr & 0x00FF_FFFF;
        proof {
            let av = self.addr;
            assert(av & 0x00FF_FFFFu128 <= 0xFF_FFFF) by (bit_vector);
        }
        base + low
    }

    /// The network address of the block of prefix length `prefix` that
    /// holds this address: the address with every host bit cleared.
    /// Fails exactly when the prefix length exceeds 128.
    pub fn network_address(&self, prefix: u8) -> (r: Result<Ipv6AddrExt, SubnetworkError>)
        ensures
            prefix <= 128 ==> (r matches Ok(x) && x@ == (self@ & mask_v6(prefix))),
            prefix > 128 ==> (r matches Err(e)
                && e matches SubnetworkError::InvalidPrefixLength { prefix: pp, max } && pp
                == prefix && max == 128),
    {
        if prefix > 128 {
            Err(SubnetworkError::InvalidPrefixLength { prefix, max: 128 })
        } else {
            Ok(Ipv6AddrExt { addr: self.addr & mask_of_prefix_v6(prefix) })
        }
    }

    /// The last address of the block of prefix length `prefix` that
    /// holds this address: the address with every host bit set. The
    /// domain has no broadcast concept at this width; this is simply
    /// the block's highest address. Fails exactly when the prefix
    /// length exceeds 128.
    pub fn last_address(&self, prefix: u8) -> (r: Result<Ipv6AddrExt, SubnetworkError>)
        ensures
            prefix <= 128 ==> (r matches Ok(x) && x@ == (self@ & mask_v6(prefix)) + host_v6(
                prefix,
            )),
            prefix > 128 ==> (r matches Err(e)
                && e matches SubnetworkError::InvalidPrefixLength { prefix: pp, max } && pp
                == prefix && max == 128),
    {
        if prefix > 128 {
            Err(SubnetworkError::InvalidPrefixLength { prefix, max: 128 })
        } else {
            let m = mask_of_prefix_v6(prefix);
            proof {
                lemma_v6_network_facts(prefix, self@);
            }
            Ok(Ipv6AddrExt { addr: (self.addr & m) + !m })
        }
    }

    /// Whether this address lies in the block: the containment test of
    /// the pool, seen from the address.
    pub fn is_within(&self, block: &Ipv6Pool) -> (r: bool)
        requires
            block.wf(),
        ensures
            r == block.contains_spec(self@),
    {
        block.contain(*self)
    }

    /// The number of leading bits this address shares with `target`: the
    /// largest `k` such that both agree under the mask of prefix length
    /// `k`. It is 128 exactly on equal addresses and 0 when the top bits
    /// already differ.
    pub fn largest_identical_prefix(&self, target: Ipv6AddrExt) -> (r: u8)
        ensures
            r <= 128,
            forall|k: u8| k <= r ==> v6_shares_prefix(self@, target@, k),
            r < 128 ==> !v6_shares_prefix(self@, target@, (r + 1) as u8),
            r == 128 <==> self@ == target@,
    {
        let a = self.addr;
        let b = target.addr;
        let mut k: u8 = 0;
        proof {
            crate::mask::lemma_v6_mask_ends(a, b);
        }
        while k < 128
            invariant
                k <= 128,
                a == self@,
                b == target@,
                v6_shares_prefix(a, b, k),
            decreases 128 - k,
        {
            let m = mask_of_prefix_v6(k + 1);
            if a & m != b & m {
                proof {
                    lemma_v6_shared_prefixes_downward(a, b, k);
                }
                return k;
            }
            k = k + 1;
        }
        proof {
            lemma_v6_shared_prefixes_downward(a, b, k);
        }
        k
    }
}

/// Agreement on the top `r` bits is agreement on every shorter prefix
/// as well: what `largest_identical_prefix` returns bounds the whole
/// set of shared prefixes from above.
pub proof fn lemma_v6_shared_prefixes_downward(a: u128, b: u128, r: u8)
    requires
        r <= 128,
        v6_shares_prefix(a, b, r),
    ensures
        forall|k: u8| k <= r ==> v6_shares_prefix(a, b, k),
{
    assert forall|k: u8| k <= r implies v6_shares_prefix(a, b, k) by {
        crate::mask::lemma_v6_mask_agreement_monotone(a, b, k, r);
    }
}

} // verus!
