//! The IPv6 cross range: an arbitrary inclusive `start..=end` interval
//! of addresses with the same one-shot forward cursor as the CIDR
//! pools. The whole 128-bit space is a legal range, so exhaustion is an
//! explicit flag rather than a one-past-the-end cursor.

use vstd::prelude::*;

use crate::addr_v6::Ipv6AddrExt;
use crate::SubnetworkError;

verus! {

/// An inclusive interval of IPv6 addresses. Constructed only when
/// `start <= end`; both endpoints belong to the range. The cursor is the
/// only mutable part.
#[derive(Debug, Clone, Copy, PartialEq, Eq, Structural)]
pub struct CrossIpv6Pool {
    start: u128,
    end: u128,
    next: u128,
    done: bool,
}

impl CrossIpv6Pool {
    /// The lowest address of the range.
    pub closed spec fn start_spec(&self) -> u128 {
        self.start
    }

    /// The highest address of the range.
    pub closed spec fn end_spec(&self) -> u128 {
        self.end
    }

    /// The next address to yield.
    pub closed spec fn cursor(&self) -> u128 {
        self.next
    }

    /// Whether the cursor has yielded every address of the range.
    pub closed spec fn exhausted(&self) -> bool {
        self.done
    }

    /// Internal consistency: the endpoints are ordered and the cursor
    /// stays between them.
    pub open spec fn wf(&self) -> bool {
        &&& self.start_spec() <= self.end_spec()
        &&& self.start_spec() <= self.cursor() <= self.end_spec()
    }

    /// The number of addresses of the range, both endpoints counted,
    /// stated over `int` because the whole address space counts to
    /// `2^128`.
    pub open spec fn length_spec(&self) -> int {
        self.end_spec() - self.start_spec() + 1
    }

    /// The membership test of the range.
    pub open spec fn contains_spec(&self, x: u128) -> bool {
        self.start_spec() <= x <= self.end_spec()
    }

    /// How many addresses the cursor has yet to yield.
    pub open spec fn remaining_count(&self) -> int {
        if self.exhausted() {
            0
        } else {
            self.end_spec() - self.cursor() + 1
        }
    }

    /// The addresses the cursor has yet to yield, in the order it will
    /// yield them.
    pub open spec fn remaining(&self) -> Seq<int> {
        Seq::new(self.remaining_count() as nat, |i: int| self.cursor() + i)
    }

    /// The range that `(start, end)` determines: the fields are a
    /// function of the two arguments and of nothing else.
    pub closed spec fn from_parts_spec(start: u128, end: u128) -> CrossIpv6Pool {
        CrossIpv6Pool { start, end, next: start, done: false }
    }

    /// Builds the inclusive range `start..=end`. Fails exactly when
    /// `start > end`, carrying both offending bounds.
    pub fn new(start: Ipv6AddrExt, end: Ipv6AddrExt) -> (r: Result<CrossIpv6Pool, SubnetworkError>)
        ensures
            start@ <= end@ ==> (r matches Ok(pool) && pool == CrossIpv6Pool::from_parts_spec(
                start@,
                end@,
            ) && pool.wf() && pool.start_spec() == start@ && pool.end_spec() == end@
                && pool.cursor() == start@ && !pool.exhausted()),
            start@ > end@ ==> (r matches Err(e)
                && e matches SubnetworkError::InvalidRange { start: s, end: e2 } && s == start@
                && e2 == end@),
    {
        let s = start.addr();
        let e = end.addr();
        if s <= e {
            Ok(CrossIpv6Pool { start: s, end: e, next: s, done: false })
        } else {
            Err(SubnetworkError::InvalidRange { start: s, end: e })
        }
    }

    /// Yields the next address of the range, or nothing once every
    /// address has been yielded. The sequence runs from the start to the
    /// end, strictly increasing, with no gaps; once exhausted it stays
    /// exhausted.
    pub fn next(&mut self) -> (r: Option<Ipv6AddrExt>)
        requires
            old(self).wf(),
        ensures
            final (self).wf(),
            final (self).start_spec() == old(self).start_spec(),
            final (self).end_spec() == old(self).end_spec(),
            old(self).exhausted() ==> r is None && *final (self) == *old(self),
            !old(self).exhausted() ==> (r matches Some(x) && x@ == old(self).cursor() && final (
            self).remaining_count() == old(self).remaining_count() - 1),
            !old(self).exhausted() && old(self).cursor() < old(self).end_spec() ==> (!final (
            self).exhausted() && final (self).cursor() == old(self).cursor() + 1),
            !old(self).exhausted() && old(self).cursor() == old(self).end_spec() ==> final (
            self).exhausted(),
    {
        if self.done {
            None
        } else {
            let ret = self.next;
            if self.next == self.end {
                self.done = true;
            } else {
                self.next = self.next + 1;
            }
            Some(Ipv6AddrExt::from_addr(ret))
        }
    }

    /// Collects every address the cursor has yet to yield. On a fresh
    /// range this is the whole interval, strictly increasing from the
    /// start to the end. The range itself is left untouched; a copy is
    /// consumed.
    pub fn to_vec(&self) -> (r: Vec<Ipv6AddrExt>)
        requires
            self.wf(),
        ensures
            r@.len() == self.remaining_count(),
            forall|i: int|
                0 <= i < r@.len() ==> (#[trigger] r@[i])@ == self.cursor() + i,
    {
        let mut cur = *self;
        let mut out: Vec<Ipv6AddrExt> = Vec::new();
        while !cur.done
            invariant
                cur.wf(),
                cur.start_spec() == self.start_spec(),
                cur.end_spec() == self.end_spec(),
                out@.len() + cur.remaining_count() == self.remaining_count(),
                !cur.exhausted() ==> cur.cursor() == self.cursor() + out@.len(),
                forall|i: int|
                    0 <= i < out@.len() ==> (#[trigger] out@[i])@ == self.cursor() + i,
            decreases cur.remaining_count(),
        {
            let x = cur.next();
            match x {
                Some(a) => out.push(a),
                None => (),
            }
        }
        out
    }

    /// Whether the range holds this address: true exactly on the
    /// addresses between the start and the end, both included.
    pub fn contain(&self, addr: Ipv6AddrExt) -> (r: bool)
        ensures
            r == self.contains_spec(addr@),
    {
        let a = addr.addr();
        a >= self.start && a <= self.end
    }

    /// The lowest address of the range.
    pub fn start(&self) -> (r: Ipv6AddrExt)
        ensures
            r@ == self.start_spec(),
    {
        Ipv6AddrExt::from_addr(self.start)
    }

    /// The highest address of the range.
    pub fn end(&self) -> (r: Ipv6AddrExt)
        ensures
            r@ == self.end_spec(),
    {
        Ipv6AddrExt::from_addr(self.end)
    }

    /// The number of addresses of the range, both endpoints counted.
    /// The whole address space counts to `2^128`, one more than this
    /// query's width can hold, so it asks for a range at least one
    /// address short of that; `length_spec` states the count for every
    /// range.
    pub fn len(&self) -> (r: u128)
        requires
            self.wf(),
            self.end_spec() - self.start_spec() < u128::MAX,
        ensures
            r == self.length_spec(),
    {
        self.end - self.start + 1
    }
}

/// Enumeration law: a fresh range has exactly `end - start + 1`
/// addresses to yield, the element at offset `i` is `start + i`, the
/// sequence is strictly increasing, and it runs from the start to the
/// end.
pub proof fn lemma_cross_v6_enumeration(pool: CrossIpv6Pool)
    requires
        pool.wf(),
        pool.cursor() == pool.start_spec(),
        !pool.exhausted(),
    ensures
        pool.remaining().len() == pool.length_spec(),
        forall|i: int|
            0 <= i < pool.remaining().len() ==> #[trigger] pool.remaining()[i]
                == pool.start_spec() + i,
        forall|i: int, j: int|
            0 <= i < j < pool.remaining().len() ==> #[trigger] pool.remaining()[i]
                < #[trigger] pool.remaining()[j],
        pool.remaining().first() == pool.start_spec(),
        pool.remaining().last() == pool.end_spec(),
{
}

/// Containment law: every address the cursor yields lies in the range,
/// and nothing outside `[start, end]` is accepted.
pub proof fn lemma_cross_v6_containment(pool: CrossIpv6Pool, x: u128)
    requires
        pool.wf(),
    ensures
        pool.contains_spec(x) <==> pool.start_spec() <= x <= pool.end_spec(),
        forall|i: int|
            0 <= i < pool.remaining().len() ==> pool.contains_spec(
                (#[trigger] pool.remaining()[i]) as u128,
            ),
{
}

} // verus!
