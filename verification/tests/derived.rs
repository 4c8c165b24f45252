use subnetwork::addr_v4::Ipv4AddrExt;
use subnetwork::addr_v6::Ipv6AddrExt;
use subnetwork::cross_v4::CrossIpv4Pool;
use subnetwork::mask::{prefix_len_of_mask_v4, prefix_len_of_mask_v6};
use subnetwork::pool_v4::Ipv4Pool;
use subnetwork::pool_v6::Ipv6Pool;
use subnetwork::SubnetworkError;

#[test]
fn address_level_network_and_broadcast() {
    let a = Ipv4AddrExt::new(192, 168, 1, 77);
    assert_eq!(a.network_address(24).unwrap(), Ipv4AddrExt::new(192, 168, 1, 0));
    assert_eq!(a.broadcast_address(24).unwrap(), Ipv4AddrExt::new(192, 168, 1, 255));
    assert_eq!(a.network_address(0).unwrap(), Ipv4AddrExt::new(0, 0, 0, 0));
    assert_eq!(a.broadcast_address(32).unwrap(), a);
    assert!(matches!(
        a.network_address(33),
        Err(SubnetworkError::InvalidPrefixLength { prefix: 33, max: 32 })
    ));

    let a6 = Ipv6AddrExt::new(0xfe80, 0, 0, 0, 0, 0, 0, 0x1234);
    assert_eq!(
        a6.network_address(112).unwrap(),
        Ipv6AddrExt::new(0xfe80, 0, 0, 0, 0, 0, 0, 0)
    );
    assert_eq!(
        a6.last_address(112).unwrap(),
        Ipv6AddrExt::new(0xfe80, 0, 0, 0, 0, 0, 0, 0xffff)
    );
    assert!(matches!(
        a6.last_address(129),
        Err(SubnetworkError::InvalidPrefixLength { prefix: 129, max: 128 })
    ));
}

#[test]
fn address_is_within_block() {
    let pool = Ipv4Pool::new(Ipv4AddrExt::new(10, 1, 2, 3), 16).unwrap();
    assert!(Ipv4AddrExt::new(10, 1, 255, 255).is_within(&pool));
    assert!(!Ipv4AddrExt::new(10, 2, 0, 0).is_within(&pool));

    let pool6 = Ipv6Pool::new(Ipv6AddrExt::new(0xfe80, 0, 0, 0, 0, 0, 0, 1), 10).unwrap();
    assert!(Ipv6AddrExt::new(0xfe80, 9, 9, 9, 9, 9, 9, 9).is_within(&pool6));
    assert!(!Ipv6AddrExt::new(0x2001, 0, 0, 0, 0, 0, 0, 1).is_within(&pool6));
}

#[test]
fn prefix_length_from_mask() {
    assert_eq!(prefix_len_of_mask_v4(0), Some(0));
    assert_eq!(prefix_len_of_mask_v4(0xFFFF_FF00), Some(24));
    assert_eq!(prefix_len_of_mask_v4(u32::MAX), Some(32));
    assert_eq!(prefix_len_of_mask_v4(0x00FF_0000), None);
    assert_eq!(prefix_len_of_mask_v4(0xFFFF_FE00), Some(23));

    assert_eq!(prefix_len_of_mask_v6(0), Some(0));
    assert_eq!(prefix_len_of_mask_v6(u128::MAX), Some(128));
    assert_eq!(prefix_len_of_mask_v6(u128::MAX << 8), Some(120));
    assert_eq!(prefix_len_of_mask_v6(1), None);

    let pool = Ipv4Pool::new(Ipv4AddrExt::new(10, 0, 0, 0), 20).unwrap();
    assert_eq!(pool.prefix_length(), 20);
    let pool6 = Ipv6Pool::new(Ipv6AddrExt::new(1, 2, 3, 4, 5, 6, 7, 8), 96).unwrap();
    assert_eq!(pool6.prefix_length(), 96);
}

#[test]
fn range_rendering() {
    let range = CrossIpv4Pool::new(
        Ipv4AddrExt::new(10, 0, 0, 254),
        Ipv4AddrExt::new(10, 0, 1, 2),
    )
    .unwrap();
    assert_eq!(range.to_text(), "10.0.0.254-10.0.1.2");
    assert_eq!(range.start(), Ipv4AddrExt::new(10, 0, 0, 254));
    assert_eq!(range.end(), Ipv4AddrExt::new(10, 0, 1, 2));
}

#[test]
fn partial_consumption_keeps_the_tail() {
    let pool = Ipv4Pool::new(Ipv4AddrExt::new(10, 0, 0, 0), 30).unwrap();
    let mut cur = pool;
    assert_eq!(cur.next().unwrap(), Ipv4AddrExt::new(10, 0, 0, 0));
    assert_eq!(cur.next().unwrap(), Ipv4AddrExt::new(10, 0, 0, 1));
    // collecting reads the cursor position without moving it
    let tail = cur.to_vec();
    assert_eq!(
        tail,
        vec![Ipv4AddrExt::new(10, 0, 0, 2), Ipv4AddrExt::new(10, 0, 0, 3)]
    );
    assert_eq!(cur.next().unwrap(), Ipv4AddrExt::new(10, 0, 0, 2));
}

#[test]
fn every_octet_value_round_trips() {
    for v in 0u8..=255 {
        let text = format!("{}.0.77.{}", v, v);
        let addr = Ipv4AddrExt::from_str(&text).unwrap();
        assert_eq!(addr.to_text(), text);
        let expected = ((v as u32) << 24) | (77 << 8) | (v as u32);
        assert_eq!(addr.addr(), expected);
    }
}
