//! The IPv4 cross range: an arbitrary inclusive `start..=end` interval
//! of addresses, not necessarily aligned to any prefix, with the same
//! one-shot forward cursor as the CIDR pools.

use vstd::prelude::*;

use crate::addr_v4::Ipv4AddrExt;
use crate::text::v4_text;
use crate::SubnetworkError;

verus! {

/// An inclusive interval of IPv4 addresses. Constructed only when
/// `start <= end`; both endpoints belong to the range. The cursor is the
/// only mutable part and is held in 64 bits, because after the top
/// address of the address space has been yielded it stands one past it.
#[derive(Debug, Clone, Copy, PartialEq, Eq, Structural)]
pub struct CrossIpv4Pool {
    start: u32,
    end: u32,
    next: u64,
}

impl CrossIpv4Pool {
    /// The lowest address of the range.
    pub closed spec fn start_spec(&self) -> u32 {
        self.start
    }

    /// The highest address of the range.
    pub closed spec fn end_spec(&self) -> u32 {
        self.end
    }

    /// The next address to yield, one past the end once exhausted.
    pub closed spec fn cursor(&self) -> u64 {
        self.next
    }

    /// Internal consistency: the endpoints are ordered and the cursor
    /// stays between the start and one past the end.
    pub open spec fn wf(&self) -> bool {
        &&& self.start_spec() <= self.end_spec()
        &&& self.start_spec() <= self.cursor() <= self.end_spec() + 1
    }

    /// The number of addresses of the range, both endpoints counted.
    pub open spec fn length_spec(&self) -> int {
        self.end_spec() - self.start_spec() + 1
    }

    /// The membership test of the range.
    pub open spec fn contains_spec(&self, x: u32) -> bool {
        self.start_spec() <= x <= self.end_spec()
    }

    /// The addresses the cursor has yet to yield, in the order it will
    /// yield them.
    pub open spec fn remaining(&self) -> Seq<int> {
        Seq::new((self.end_spec() + 1 - self.cursor()) as nat, |i: int| self.cursor() + i)
    }

    /// The range that `(start, end)` determines: the fields are a
    /// function of the two arguments and of nothing else.
    pub closed spec fn from_parts_spec(start: u32, end: u32) -> CrossIpv4Pool {
        CrossIpv4Pool { start, end, next: start as u64 }
    }

    /// Builds the inclusive range `start..=end`. Fails exactly when
    /// `start > end`, carrying both offending bounds.
    pub fn new(start: Ipv4AddrExt, end: Ipv4AddrExt) -> (r: Result<CrossIpv4Pool, SubnetworkError>)
        ensures
            start@ <= end@ ==> (r matches Ok(pool) && pool == CrossIpv4Pool::from_parts_spec(
                start@,
                end@,
            ) && pool.wf() && pool.start_spec() == start@ && pool.end_spec() == end@
                && pool.cursor() == start@),
            start@ > end@ ==> (r matches Err(e)
                && e matches SubnetworkError::InvalidRange { start: s, end: e2 } && s == start@
                && e2 == end@),
    {
        let s = start.addr();
        let e = end.addr();
        if s <= e {
            Ok(CrossIpv4Pool { start: s, end: e, next: s as u64 })
        } else {
            Err(SubnetworkError::InvalidRange { start: s as u128, end: e as u128 })
        }
    }

    /// Yields the next address of the range, or nothing once every
    /// address has been yielded. The sequence runs from the start to the
    /// end, strictly increasing, with no gaps; once exhausted it stays
    /// exhausted.
    pub fn next(&mut self) -> (r: Option<Ipv4AddrExt>)
        requires
            old(self).wf(),
        ensures
            final (self).wf(),
            final (self).start_spec() == old(self).start_spec(),
            final (self).end_spec() == old(self).end_spec(),
            old(self).cursor() <= old(self).end_spec() ==> (r matches Some(x) && x@ == old(
                self,
            ).cursor() && final (self).cursor() == old(self).cursor() + 1),
            old(self).cursor() > old(self).end_spec() ==> r is None && *final (self) == *old(self),
    {
        if self.next <= self.end as u64 {
            let ret = self.next as u32;
            self.next = self.next + 1;
            Some(Ipv4AddrExt::from_addr(ret))
        } else {
            None
        }
    }

    /// Collects every address the cursor has yet to yield. On a fresh
    /// range this is the whole interval, strictly increasing from the
    /// start to the end. The range itself is left untouched; a copy is
    /// consumed.
    pub fn to_vec(&self) -> (r: Vec<Ipv4AddrExt>)
        requires
            self.wf(),
        ensures
            r@.len() == self.end_spec() + 1 - self.cursor(),
            forall|i: int|
                0 <= i < r@.len() ==> (#[trigger] r@[i])@ == self.cursor() + i,
    {
        let mut cur = *self;
        let mut out: Vec<Ipv4AddrExt> = Vec::new();
        while cur.next <= cur.end as u64
            invariant
                cur.wf(),
                cur.start_spec() == self.start_spec(),
                cur.end_spec() == self.end_spec(),
                self.cursor() <= cur.cursor(),
                out@.len() == cur.cursor() - self.cursor(),
                forall|i: int|
                    0 <= i < out@.len() ==> (#[trigger] out@[i])@ == self.cursor() + i,
            decreases cur.end_spec() + 1 - cur.cursor(),
        {
            let x = cur.next();
            match x {
                Some(a) => out.push(a),
                None => (),
            }
        }
        out
    }

    /// Whether the range holds this address: true exactly on the
    /// addresses between the start and the end, both included.
    pub fn contain(&self, addr: Ipv4AddrExt) -> (r: bool)
        ensures
            r == self.contains_spec(addr@),
    {
        let a = addr.addr();
        a >= self.start && a <= self.end
    }

    /// The lowest address of the range.
    pub fn start(&self) -> (r: Ipv4AddrExt)
        ensures
            r@ == self.start_spec(),
    {
        Ipv4AddrExt::from_addr(self.start)
    }

    /// The highest address of the range.
    pub fn end(&self) -> (r: Ipv4AddrExt)
        ensures
            r@ == self.end_spec(),
    {
        Ipv4AddrExt::from_addr(self.end)
    }

    /// Renders the range as `start-end`: the canonical dotted-quad
    /// texts of the two endpoints joined by a dash.
    pub fn to_text(&self) -> (r: String)
        ensures
            r@ == v4_text(self.start_spec()) + seq!['-'] + v4_text(self.end_spec()),
    {
        let mut out = Ipv4AddrExt::from_addr(self.start).to_text();
        crate::text::push_char(&mut out, '-');
        let end_text = Ipv4AddrExt::from_addr(self.end).to_text();
        out.append(end_text.as_str());
        proof {
            assert(out@ =~= v4_text(self.start_spec()) + seq!['-'] + v4_text(self.end_spec()));
        }
        out
    }

    /// The number of addresses of the range, both endpoints counted,
    /// held in 64 bits so that even the whole address space is counted
    /// exactly.
    pub fn len(&self) -> (r: u64)
        requires
            self.wf(),
        ensures
            r == self.length_spec(),
    {
        (self.end as u64) - (self.start as u64) + 1
    }
}

/// Enumeration law: a fresh range has exactly `end - start + 1`
/// addresses to yield, the element at offset `i` is `start + i`, the
/// sequence is strictly increasing, and it runs from the start to the
/// end.
pub proof fn lemma_cross_v4_enumeration(pool: CrossIpv4Pool)
    requires
        pool.wf(),
        pool.cursor() == pool.start_spec(),
    ensures
        pool.remaining().len() == pool.length_spec(),
        forall|i: int|
            0 <= i < pool.remaining().len() ==> #[trigger] pool.remaining()[i]
                == pool.start_spec() + i,
        forall|i: int, j: int|
            0 <= i < j < pool.remaining().len() ==> #[trigger] pool.remaining()[i]
                < #[trigger] pool.remaining()[j],
        pool.remaining().first() == pool.start_spec(),
        pool.remaining().last() == pool.end_spec(),
{
}

/// Containment law: every address the cursor yields lies in the range,
/// and nothing outside `[start, end]` is accepted.
pub proof fn lemma_cross_v4_containment(pool: CrossIpv4Pool, x: u32)
    requires
        pool.wf(),
    ensures
        pool.contains_spec(x) <==> pool.start_spec() <= x <= pool.end_spec(),
        forall|i: int|
            0 <= i < pool.remaining().len() ==> pool.contains_spec(
                (#[trigger] pool.remaining()[i]) as u32,
            ),
{
}

} // verus!
