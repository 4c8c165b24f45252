use subnetwork::addr_v4::Ipv4AddrExt;
use subnetwork::addr_v6::Ipv6AddrExt;
use subnetwork::cross_v4::CrossIpv4Pool;
use subnetwork::cross_v6::CrossIpv6Pool;
use subnetwork::mask::NetmaskExt;
use subnetwork::pool_v4::Ipv4Pool;
use subnetwork::pool_v6::Ipv6Pool;
use subnetwork::SubnetworkError;

#[test]
fn block_size_law_v4() {
    let addr = Ipv4AddrExt::new(10, 20, 30, 40);
    assert_eq!(Ipv4Pool::new(addr, 32).unwrap().len(), 1);
    assert_eq!(Ipv4Pool::new(addr, 31).unwrap().len(), 2);
    assert_eq!(Ipv4Pool::new(addr, 24).unwrap().len(), 256);
    assert_eq!(Ipv4Pool::new(addr, 16).unwrap().len(), 65536);
    assert_eq!(Ipv4Pool::new(addr, 8).unwrap().len(), 16777216);

    let pool = Ipv4Pool::new(Ipv4AddrExt::new(10, 20, 30, 41), 30).unwrap();
    let all = pool.to_vec();
    assert_eq!(all.len(), 4);
    assert_eq!(all[0], pool.network());
    assert_eq!(all[3], pool.last_address());
    for w in all.windows(2) {
        assert!(w[0].addr() < w[1].addr());
    }
}

#[test]
fn block_size_law_v6() {
    let addr = Ipv6AddrExt::new(0xfe80, 0, 0, 0, 0, 0, 0, 7);
    assert_eq!(Ipv6Pool::new(addr, 128).unwrap().len(), 1);
    assert_eq!(Ipv6Pool::new(addr, 120).unwrap().len(), 256);
    assert_eq!(Ipv6Pool::new(addr, 64).unwrap().len(), 1u128 << 64);
    assert_eq!(Ipv6Pool::new(addr, 1).unwrap().len(), 1u128 << 127);

    let pool = Ipv6Pool::new(addr, 126).unwrap();
    let all = pool.to_vec();
    assert_eq!(all.len(), 4);
    assert_eq!(all[0], pool.network());
    assert_eq!(all[3], pool.last_address());
    for w in all.windows(2) {
        assert!(w[0].addr() < w[1].addr());
    }
}

#[test]
fn containment_law_v4() {
    let pool = Ipv4Pool::new(Ipv4AddrExt::new(192, 168, 1, 77), 24).unwrap();
    for a in pool.to_vec() {
        assert!(pool.contain(a));
    }
    assert!(!pool.contain(Ipv4AddrExt::new(192, 168, 0, 255)));
    assert!(!pool.contain(Ipv4AddrExt::new(192, 168, 2, 0)));
}

#[test]
fn containment_law_v6() {
    let pool = Ipv6Pool::new(Ipv6AddrExt::new(0, 0, 0, 0, 0, 0xffff, 0xc00a, 0x0200), 120)
        .unwrap();
    for a in pool.to_vec() {
        assert!(pool.contain(a));
    }
    assert!(!pool.contain(Ipv6AddrExt::new(0, 0, 0, 0, 0, 0xffff, 0xc00a, 0x01ff)));
    assert!(!pool.contain(Ipv6AddrExt::new(0, 0, 0, 0, 0, 0xffff, 0xc00a, 0x0300)));
}

#[test]
fn idempotence_law() {
    let addr = Ipv4AddrExt::new(172, 16, 5, 9);
    let p1 = Ipv4Pool::new(addr, 20).unwrap();
    let p2 = Ipv4Pool::new(addr, 20).unwrap();
    assert_eq!(p1, p2);
    // any address inside the block builds the very same pool
    let p3 = Ipv4Pool::new(Ipv4AddrExt::new(172, 16, 15, 255), 20).unwrap();
    assert_eq!(p1, p3);
    assert_eq!(p1.network(), p2.network());
    assert_eq!(p1.len(), p2.len());
    assert_eq!(p1.to_vec(), p2.to_vec());

    // the two cursors are independent: exhausting one leaves the other fresh
    let mut c1 = p1;
    let mut yielded: u64 = 0;
    while c1.next().is_some() {
        yielded += 1;
    }
    assert_eq!(yielded, p1.len());
    let mut c2 = p2;
    assert_eq!(c2.next().unwrap(), p2.network());
}

#[test]
fn zero_prefix_boundary_v4() {
    let pool = Ipv4Pool::new(Ipv4AddrExt::new(1, 2, 3, 4), 0).unwrap();
    assert_eq!(pool.len(), 4_294_967_296u64);
    assert_eq!(pool.network(), Ipv4AddrExt::new(0, 0, 0, 0));
    assert_eq!(pool.last_address(), Ipv4AddrExt::new(255, 255, 255, 255));
    assert!(pool.contain(Ipv4AddrExt::new(9, 9, 9, 9)));
    let mut cur = pool;
    assert_eq!(cur.next().unwrap(), Ipv4AddrExt::new(0, 0, 0, 0));
    assert_eq!(cur.next().unwrap(), Ipv4AddrExt::new(0, 0, 0, 1));
}

#[test]
fn zero_prefix_boundary_v6() {
    let pool = Ipv6Pool::new(Ipv6AddrExt::new(0xfe80, 0, 0, 0, 0, 0, 0, 1), 0).unwrap();
    assert_eq!(pool.network(), Ipv6AddrExt::new(0, 0, 0, 0, 0, 0, 0, 0));
    assert_eq!(
        pool.last_address(),
        Ipv6AddrExt::new(0xffff, 0xffff, 0xffff, 0xffff, 0xffff, 0xffff, 0xffff, 0xffff)
    );
    assert!(pool.contain(Ipv6AddrExt::new(1, 2, 3, 4, 5, 6, 7, 8)));
    let mut cur = pool;
    assert_eq!(cur.next().unwrap(), Ipv6AddrExt::new(0, 0, 0, 0, 0, 0, 0, 0));
    assert_eq!(cur.next().unwrap(), Ipv6AddrExt::new(0, 0, 0, 0, 0, 0, 0, 1));
}

#[test]
fn full_prefix_boundary() {
    let addr = Ipv4AddrExt::new(203, 0, 113, 9);
    let pool = Ipv4Pool::new(addr, 32).unwrap();
    assert_eq!(pool.len(), 1);
    assert_eq!(pool.to_vec(), vec![addr]);
    let mut cur = pool;
    assert_eq!(cur.next().unwrap(), addr);
    assert_eq!(cur.next(), None);
    assert_eq!(cur.next(), None);

    let a6 = Ipv6AddrExt::new(0xfe80, 0, 0, 0, 1, 2, 3, 4);
    let pool6 = Ipv6Pool::new(a6, 128).unwrap();
    assert_eq!(pool6.len(), 1);
    assert_eq!(pool6.to_vec(), vec![a6]);
    let mut cur6 = pool6;
    assert_eq!(cur6.next().unwrap(), a6);
    assert_eq!(cur6.next(), None);
}

#[test]
fn range_ordering_failure() {
    let start = Ipv4AddrExt::new(192, 168, 1, 1);
    let end = Ipv4AddrExt::new(192, 168, 3, 254);
    let r = CrossIpv4Pool::new(end, start);
    assert!(matches!(
        r,
        Err(SubnetworkError::InvalidRange { start: s, end: e })
            if s == end.addr() as u128 && e == start.addr() as u128
    ));

    let s6 = Ipv6AddrExt::new(0xfe80, 0, 0, 0, 0, 0, 0, 1);
    let e6 = Ipv6AddrExt::new(0xfe80, 0, 0, 0, 0, 0, 0, 9);
    let r6 = CrossIpv6Pool::new(e6, s6);
    assert!(matches!(r6, Err(SubnetworkError::InvalidRange { .. })));
}

#[test]
fn pool_scenario_192_168_1_1_slash_24() {
    let pool = Ipv4Pool::new(Ipv4AddrExt::new(192, 168, 1, 1), 24).unwrap();
    assert_eq!(pool.network(), Ipv4AddrExt::new(192, 168, 1, 0));
    assert_eq!(pool.last_address(), Ipv4AddrExt::new(192, 168, 1, 255));
    assert_eq!(pool.broadcast(), Ipv4AddrExt::new(192, 168, 1, 255));
    assert_eq!(pool.block_size(), 256);
    assert_eq!(pool.usable_count(), 254);
    let all = pool.to_vec();
    assert_eq!(all.len(), 256);
    for (i, a) in all.iter().enumerate() {
        assert_eq!(*a, Ipv4AddrExt::new(192, 168, 1, i as u8));
    }
}

#[test]
fn common_prefix_scenarios() {
    let a = Ipv4AddrExt::new(192, 168, 1, 136);
    let b = Ipv4AddrExt::new(192, 168, 1, 192);
    assert_eq!(a.largest_identical_prefix(b), 25);

    // equality shares the full width; a differing top bit shares nothing
    assert_eq!(a.largest_identical_prefix(a), 32);
    let top = Ipv4AddrExt::new(128, 0, 0, 0);
    let zero = Ipv4AddrExt::new(0, 0, 0, 0);
    assert_eq!(top.largest_identical_prefix(zero), 0);

    let x = Ipv6AddrExt::new(0xfe80, 0, 0, 0, 0, 0, 0, 1);
    let y = Ipv6AddrExt::new(0xfe80, 0, 0, 0, 0, 0, 0, 3);
    assert_eq!(x.largest_identical_prefix(y), 126);
    assert_eq!(x.largest_identical_prefix(x), 128);
    let top6 = Ipv6AddrExt::new(0x8000, 0, 0, 0, 0, 0, 0, 0);
    let zero6 = Ipv6AddrExt::new(0, 0, 0, 0, 0, 0, 0, 0);
    assert_eq!(top6.largest_identical_prefix(zero6), 0);
}

#[test]
fn range_scenario_cross_blocks() {
    let pool = CrossIpv4Pool::new(
        Ipv4AddrExt::new(192, 168, 1, 16),
        Ipv4AddrExt::new(192, 168, 3, 200),
    )
    .unwrap();
    assert!(pool.contain(Ipv4AddrExt::new(192, 168, 2, 0)));
    assert!(pool.contain(Ipv4AddrExt::new(192, 168, 3, 200)));
    assert!(!pool.contain(Ipv4AddrExt::new(192, 168, 3, 201)));
    assert!(!pool.contain(Ipv4AddrExt::new(192, 168, 1, 15)));
    // inclusive length: both endpoints counted
    assert_eq!(pool.len(), 2 * 256 + (200 - 16) + 1);
}

#[test]
fn range_iteration() {
    let start = Ipv4AddrExt::new(10, 0, 0, 254);
    let end = Ipv4AddrExt::new(10, 0, 1, 2);
    let pool = CrossIpv4Pool::new(start, end).unwrap();
    assert_eq!(pool.len(), 5);
    let all = pool.to_vec();
    assert_eq!(
        all,
        vec![
            Ipv4AddrExt::new(10, 0, 0, 254),
            Ipv4AddrExt::new(10, 0, 0, 255),
            Ipv4AddrExt::new(10, 0, 1, 0),
            Ipv4AddrExt::new(10, 0, 1, 1),
            Ipv4AddrExt::new(10, 0, 1, 2),
        ]
    );
    // the top of the address space is iterated without wrapping
    let top = CrossIpv4Pool::new(
        Ipv4AddrExt::new(255, 255, 255, 254),
        Ipv4AddrExt::new(255, 255, 255, 255),
    )
    .unwrap();
    let mut cur = top;
    assert_eq!(cur.next().unwrap(), Ipv4AddrExt::new(255, 255, 255, 254));
    assert_eq!(cur.next().unwrap(), Ipv4AddrExt::new(255, 255, 255, 255));
    assert_eq!(cur.next(), None);
}

#[test]
fn range_iteration_v6() {
    let start = Ipv6AddrExt::new(0xfe80, 0, 0, 0, 0x215, 0x5dff, 0xfe20, 0xb393);
    let end = Ipv6AddrExt::new(0xfe80, 0, 0, 0, 0x215, 0x5dff, 0xfe20, 0xb395);
    let pool = CrossIpv6Pool::new(start, end).unwrap();
    assert_eq!(pool.len(), 3);
    let all = pool.to_vec();
    assert_eq!(all.len(), 3);
    assert_eq!(all[0], start);
    assert_eq!(all[2], end);
    assert!(pool.contain(Ipv6AddrExt::new(0xfe80, 0, 0, 0, 0x215, 0x5dff, 0xfe20, 0xb394)));
    assert!(!pool.contain(Ipv6AddrExt::new(0xfe80, 0, 0, 0, 0x215, 0x5dff, 0xfe20, 0xb396)));

    // the top of the address space is iterated without wrapping
    let hi = Ipv6AddrExt::new(0xffff, 0xffff, 0xffff, 0xffff, 0xffff, 0xffff, 0xffff, 0xffff);
    let top = CrossIpv6Pool::new(hi, hi).unwrap();
    let mut cur = top;
    assert_eq!(cur.next().unwrap(), hi);
    assert_eq!(cur.next(), None);
}

#[test]
fn prefix_length_errors() {
    let a4 = Ipv4AddrExt::new(1, 2, 3, 4);
    assert!(matches!(
        Ipv4Pool::new(a4, 33),
        Err(SubnetworkError::InvalidPrefixLength { prefix: 33, max: 32 })
    ));
    let a6 = Ipv6AddrExt::new(1, 2, 3, 4, 5, 6, 7, 8);
    assert!(matches!(
        Ipv6Pool::new(a6, 129),
        Err(SubnetworkError::InvalidPrefixLength { prefix: 129, max: 128 })
    ));
    assert!(matches!(
        NetmaskExt::new(40).to_ipv4(),
        Err(SubnetworkError::InvalidPrefixLength { prefix: 40, max: 32 })
    ));
    assert!(matches!(
        NetmaskExt::new(200).to_ipv6(),
        Err(SubnetworkError::InvalidPrefixLength { prefix: 200, max: 128 })
    ));
}

#[test]
fn netmask_boundaries() {
    assert_eq!(NetmaskExt::new(0).to_ipv4().unwrap(), Ipv4AddrExt::new(0, 0, 0, 0));
    assert_eq!(
        NetmaskExt::new(32).to_ipv4().unwrap(),
        Ipv4AddrExt::new(255, 255, 255, 255)
    );
    assert_eq!(
        NetmaskExt::new(0).to_ipv6().unwrap(),
        Ipv6AddrExt::new(0, 0, 0, 0, 0, 0, 0, 0)
    );
    assert_eq!(
        NetmaskExt::new(128).to_ipv6().unwrap(),
        Ipv6AddrExt::new(0xffff, 0xffff, 0xffff, 0xffff, 0xffff, 0xffff, 0xffff, 0xffff)
    );
    assert_eq!(
        NetmaskExt::new(33).to_ipv6().unwrap(),
        Ipv6AddrExt::new(0xffff, 0xffff, 0x8000, 0, 0, 0, 0, 0)
    );
}

#[test]
fn multicast_low_bits_overlay() {
    // all twenty-four low bits set flow into the overlay unchanged
    let a = Ipv6AddrExt::new(0x2001, 0xdb8, 0, 0, 0, 0, 0x00ff, 0xffff);
    assert_eq!(
        a.node_multicast(),
        Ipv6AddrExt::new(0xff01, 0, 0, 0, 0, 1, 0xffff, 0xffff)
    );
    // clear low bits leave the bare scope base
    let b = Ipv6AddrExt::new(0x2001, 0xdb8, 0, 0, 0, 0, 0xff00, 0);
    assert_eq!(b.link_multicast(), Ipv6AddrExt::new(0xff02, 0, 0, 0, 0, 1, 0xff00, 0));
    assert_eq!(b.site_multicast(), Ipv6AddrExt::new(0xff05, 0, 0, 0, 0, 1, 0xff00, 0));
}

#[test]
fn usable_count_convention() {
    let pool = Ipv4Pool::new(Ipv4AddrExt::new(10, 0, 0, 0), 30).unwrap();
    assert_eq!(pool.usable_count(), 2);
    let pool31 = Ipv4Pool::new(Ipv4AddrExt::new(10, 0, 0, 0), 31).unwrap();
    assert_eq!(pool31.usable_count(), 0);
    let pool6 = Ipv6Pool::new(Ipv6AddrExt::new(1, 2, 3, 4, 5, 6, 7, 8), 120).unwrap();
    assert_eq!(pool6.usable_count(), 254);
    // the whole address space still counts: 2^128 - 2
    let pool6_all = Ipv6Pool::new(Ipv6AddrExt::new(1, 2, 3, 4, 5, 6, 7, 8), 0).unwrap();
    assert_eq!(pool6_all.usable_count(), u128::MAX - 1);
}
