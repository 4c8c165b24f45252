//! Mask algebra: the prefix mask of a prefix length, the host mask, the
//! block size, and the bit-level facts about them that the pool and range
//! types build on. `NetmaskExt` turns a prefix length into a mask address.

use vstd::prelude::*;

use crate::addr_v4::Ipv4AddrExt;
use crate::addr_v6::Ipv6AddrExt;
use crate::SubnetworkError;

verus! {

/// The IPv4 mask with the top `p` bits set and the remaining bits clear.
/// A shift by the full width is not defined, so a zero prefix length is a
/// branch of its own and yields the all-zero mask.
pub open spec fn mask_v4(p: u8) -> u32
    recommends
        p <= 32,
{
    if p == 0 {
        0u32
    } else {
        u32::MAX << ((32 - p) as u32)
    }
}

/// The IPv4 host mask: the complement of the prefix mask.
pub open spec fn host_v4(p: u8) -> u32 {
    !mask_v4(p)
}

/// The number of addresses in an IPv4 block of prefix length `p`:
/// `2^(32 - p)`. At `p == 0` this is `2^32`, which does not fit in 32
/// bits, so the count is held in 64 bits.
pub open spec fn block_v4(p: u8) -> u64
    recommends
        p <= 32,
{
    1u64 << ((32 - p) as u64)
}

/// The IPv6 mask with the top `p` bits set and the remaining bits clear.
pub open spec fn mask_v6(p: u8) -> u128
    recommends
        p <= 128,
{
    if p == 0 {
        0u128
    } else {
        u128::MAX << ((128 - p) as u128)
    }
}

/// The IPv6 host mask: the complement of the prefix mask.
pub open spec fn host_v6(p: u8) -> u128 {
    !mask_v6(p)
}

/// The number of addresses in an IPv6 block of prefix length `p`, as a
/// mathematical integer: `2^(128 - p)`. At `p == 0` this is `2^128`, one
/// more than any 128-bit value can hold, which is why it is stated over
/// `int` and why the pool keeps an explicit exhaustion flag instead of a
/// stop counter.
pub open spec fn block_v6(p: u8) -> int
    recommends
        p <= 128,
{
    host_v6(p) + 1
}

/// The prefix mask of `p`, executable form.
pub fn mask_of_prefix_v4(p: u8) -> (m: u32)
    requires
        p <= 32,
    ensures
        m == mask_v4(p),
{
    if p == 0 {
        0
    } else {
        u32::MAX << ((32 - p) as u32)
    }
}

/// The prefix mask of `p`, executable form.
pub fn mask_of_prefix_v6(p: u8) -> (m: u128)
    requires
        p <= 128,
    ensures
        m == mask_v6(p),
{
    if p == 0 {
        0
    } else {
        u128::MAX << ((128 - p) as u32)
    }
}

/// The block size is one more than the host mask: `2^(32-p) == !mask + 1`.
pub proof fn lemma_v4_block_is_host_plus_one(p: u8)
    by (bit_vector)
    requires
        p <= 32,
    ensures
        block_v4(p) == host_v4(p) as u64 + 1,
{
}

/// A network address keeps only mask bits, so adding the whole host mask
/// to it stays within 32 bits, and masking it again changes nothing.
pub proof fn lemma_v4_network_facts(p: u8, a: u32)
    by (bit_vector)
    requires
        p <= 32,
    ensures
        (a & mask_v4(p)) & mask_v4(p) == a & mask_v4(p),
        (a & mask_v4(p)) + host_v4(p) <= u32::MAX,
        a & mask_v4(p) <= a,
{
}

/// An address has the block's network under the mask exactly when it lies
/// in the closed interval from the network to the network plus the host
/// mask. This is the bridge between the bitwise containment test and the
/// interval that iteration walks.
pub proof fn lemma_v4_contains_iff_interval(p: u8, n: u32, x: u32)
    by (bit_vector)
    requires
        p <= 32,
        n & mask_v4(p) == n,
    ensures
        (x & mask_v4(p) == n) <==> (n <= x && x <= n + host_v4(p)),
{
}

/// Agreement under a longer prefix mask implies agreement under any
/// shorter one.
pub proof fn lemma_v4_mask_agreement_monotone(a: u32, b: u32, k1: u8, k2: u8)
    by (bit_vector)
    requires
        k1 <= k2,
        k2 <= 32,
        a & mask_v4(k2) == b & mask_v4(k2),
    ensures
        a & mask_v4(k1) == b & mask_v4(k1),
{
}

/// The full-width mask keeps every bit, and the empty mask keeps none.
pub proof fn lemma_v4_mask_ends(a: u32, b: u32)
    by (bit_vector)
    ensures
        (a & mask_v4(32) == b & mask_v4(32)) <==> a == b,
        a & mask_v4(0) == b & mask_v4(0),
{
}

/// The block size is one more than the host mask, stated over `int`
/// because at a zero prefix length the size is `2^128`.
pub proof fn lemma_v6_block_is_host_plus_one(p: u8)
    by (bit_vector)
    requires
        p <= 128,
    ensures
        p >= 1 ==> (1u128 << ((128 - p) as u128)) == host_v6(p) as u128 + 1,
        p == 0 ==> host_v6(p) == u128::MAX,
{
}

/// A network address keeps only mask bits, so adding the whole host mask
/// to it stays within 128 bits, and masking it again changes nothing.
pub proof fn lemma_v6_network_facts(p: u8, a: u128)
    by (bit_vector)
    requires
        p <= 128,
    ensures
        (a & mask_v6(p)) & mask_v6(p) == a & mask_v6(p),
        (a & mask_v6(p)) + host_v6(p) <= u128::MAX,
        a & mask_v6(p) <= a,
{
}

/// The 128-bit form of the containment/interval bridge.
pub proof fn lemma_v6_contains_iff_interval(p: u8, n: u128, x: u128)
    by (bit_vector)
    requires
        p <= 128,
        n & mask_v6(p) == n,
    ensures
        (x & mask_v6(p) == n) <==> (n <= x && x <= n + host_v6(p)),
{
}

/// Agreement under a longer prefix mask implies agreement under any
/// shorter one.
pub proof fn lemma_v6_mask_agreement_monotone(a: u128, b: u128, k1: u8, k2: u8)
    by (bit_vector)
    requires
        k1 <= k2,
        k2 <= 128,
        a & mask_v6(k2) == b & mask_v6(k2),
    ensures
        a & mask_v6(k1) == b & mask_v6(k1),
{
}

/// The full-width mask keeps every bit, and the empty mask keeps none.
pub proof fn lemma_v6_mask_ends(a: u128, b: u128)
    by (bit_vector)
    ensures
        (a & mask_v6(128) == b & mask_v6(128)) <==> a == b,
        a & mask_v6(0) == b & mask_v6(0),
{
}

/// No two prefix lengths make the same mask.
pub proof fn lemma_v4_mask_injective(p1: u8, p2: u8)
    by (bit_vector)
    requires
        p1 <= 32,
        p2 <= 32,
        mask_v4(p1) == mask_v4(p2),
    ensures
        p1 == p2,
{
}

/// No two prefix lengths make the same mask.
pub proof fn lemma_v6_mask_injective(p1: u8, p2: u8)
    by (bit_vector)
    requires
        p1 <= 128,
        p2 <= 128,
        mask_v6(p1) == mask_v6(p2),
    ensures
        p1 == p2,
{
}

/// The prefix length whose mask is `m`, if `m` is a prefix mask at all.
/// By injectivity of the mask there is at most one.
pub fn prefix_len_of_mask_v4(m: u32) -> (r: Option<u8>)
    ensures
        r matches Some(p) ==> p <= 32 && m == mask_v4(p) && (forall|p2: u8|
            p2 <= 32 && m == mask_v4(p2) ==> p2 == p),
        r is None ==> forall|p: u8| p <= 32 ==> m != mask_v4(p),
{
    let mut p: u8 = 0;
    while p <= 32
        invariant
            p <= 33,
            forall|k: u8| k < p ==> m != mask_v4(k),
        decreases 33 - p,
    {
        if mask_of_prefix_v4(p) == m {
            proof {
                assert forall|p2: u8| p2 <= 32 && m == mask_v4(p2) implies p2 == p by {
                    lemma_v4_mask_injective(p, p2);
                }
            }
            return Some(p);
        }
        p = p + 1;
    }
    None
}

/// The prefix length whose mask is `m`, if `m` is a prefix mask at all.
/// By injectivity of the mask there is at most one.
pub fn prefix_len_of_mask_v6(m: u128) -> (r: Option<u8>)
    ensures
        r matches Some(p) ==> p <= 128 && m == mask_v6(p) && (forall|p2: u8|
            p2 <= 128 && m == mask_v6(p2) ==> p2 == p),
        r is None ==> forall|p: u8| p <= 128 ==> m != mask_v6(p),
{
    let mut p: u8 = 0;
    while p <= 128
        invariant
            p <= 129,
            forall|k: u8| k < p ==> m != mask_v6(k),
        decreases 129 - p,
    {
        if mask_of_prefix_v6(p) == m {
            proof {
                assert forall|p2: u8| p2 <= 128 && m == mask_v6(p2) implies p2 == p by {
                    lemma_v6_mask_injective(p, p2);
                }
            }
            return Some(p);
        }
        p = p + 1;
    }
    None
}

/// A prefix length waiting to be turned into a mask address of either
/// family. Construction is total; the width check happens at conversion.
pub struct NetmaskExt {
    prefix: u8,
}

impl NetmaskExt {
    /// The stored prefix length.
    pub closed spec fn prefix_spec(&self) -> u8 {
        self.prefix
    }

    /// Wraps a prefix length. Never fails; `to_ipv4` and `to_ipv6` check
    /// it against the family's width.
    pub fn new(prefix: u8) -> (r: NetmaskExt)
        ensures
            r.prefix_spec() == prefix,
    {
        NetmaskExt { prefix }
    }

    /// The IPv4 mask address of this prefix length: the top `prefix` bits
    /// set. Fails exactly when the prefix length exceeds 32.
    pub fn to_ipv4(&self) -> (r: Result<Ipv4AddrExt, SubnetworkError>)
        ensures
            self.prefix_spec() <= 32 ==> (r matches Ok(m) && m@ == mask_v4(self.prefix_spec())),
            self.prefix_spec() > 32 ==> (r matches Err(e)
                && e matches SubnetworkError::InvalidPrefixLength { prefix, max }
                && prefix == self.prefix_spec() && max == 32),
    {
        if self.prefix > 32 {
            Err(SubnetworkError::InvalidPrefixLength { prefix: self.prefix, max: 32 })
        } else {
            Ok(Ipv4AddrExt::from_addr(mask_of_prefix_v4(self.prefix)))
        }
    }

    /// The IPv6 mask address of this prefix length: the top `prefix` bits
    /// set. Fails exactly when the prefix length exceeds 128.
    pub fn to_ipv6(&self) -> (r: Result<Ipv6AddrExt, SubnetworkError>)
        ensures
            self.prefix_spec() <= 128 ==> (r matches Ok(m) && m@ == mask_v6(self.prefix_spec())),
            self.prefix_spec() > 128 ==> (r matches Err(e)
                && e matches SubnetworkError::InvalidPrefixLength { prefix, max }
                && prefix == self.prefix_spec() && max == 128),
    {
        if self.prefix > 128 {
            Err(SubnetworkError::InvalidPrefixLength { prefix: self.prefix, max: 128 })
        } else {
            Ok(Ipv6AddrExt::from_addr(mask_of_prefix_v6(self.prefix)))
        }
    }
}

} // verus!
