use subnetwork::addr_v4::Ipv4AddrExt;
use subnetwork::pool_v4::Ipv4Pool;
use subnetwork::SubnetworkError;

#[test]
fn address_round_trips() {
    for text in [
        "0.0.0.0",
        "255.255.255.255",
        "10.0.0.1",
        "192.168.1.136",
        "1.22.111.9",
        "100.200.30.4",
    ] {
        let addr = Ipv4AddrExt::from_str(text).unwrap();
        assert_eq!(addr.to_text(), text);
        assert_eq!(Ipv4AddrExt::from_str(&addr.to_text()).unwrap(), addr);
    }
}

#[test]
fn address_text_exact_values() {
    assert_eq!(Ipv4AddrExt::from_str("192.168.1.1").unwrap().addr(), 3232235777);
    assert_eq!(Ipv4AddrExt::from_str("0.0.0.0").unwrap().addr(), 0);
    assert_eq!(Ipv4AddrExt::from_str("255.255.255.255").unwrap().addr(), u32::MAX);
    assert_eq!(Ipv4AddrExt::new(1, 2, 3, 4).to_text(), "1.2.3.4");
    assert_eq!(Ipv4AddrExt::new(255, 0, 10, 200).to_text(), "255.0.10.200");
}

#[test]
fn address_parse_rejections() {
    for text in [
        "",
        ".",
        "...",
        "1.2.3",
        "1.2.3.4.5",
        "1..2.3",
        "1.2.3.",
        ".1.2.3.4",
        "256.1.1.1",
        "1.2.3.999",
        "01.2.3.4",
        "1.2.3.004",
        "a.b.c.d",
        "1.2.3.4 ",
        "1.2.3.x",
        "-1.2.3.4",
        "1,2,3,4",
        "1.2.3.4/24",
    ] {
        let r = Ipv4AddrExt::from_str(text);
        assert!(
            matches!(r, Err(SubnetworkError::AddressParseError { ref detail }) if detail.as_str() == text),
            "accepted {:?}",
            text
        );
    }
}

#[test]
fn pool_text_round_trips() {
    for text in ["192.168.1.0/24", "0.0.0.0/0", "255.255.255.255/32", "10.0.0.0/8"] {
        let pool = Ipv4Pool::from_str(text).unwrap();
        assert_eq!(pool.to_text(), text);
        assert_eq!(Ipv4Pool::from_str(&pool.to_text()).unwrap(), pool);
    }
    // the pool canonicalizes to its network address
    let pool = Ipv4Pool::from_str("192.168.1.77/24").unwrap();
    assert_eq!(pool.to_text(), "192.168.1.0/24");
    // tolerated leading zeros in the prefix are rendered canonically,
    // however many there are
    let pool = Ipv4Pool::from_str("10.0.0.0/08").unwrap();
    assert_eq!(pool.to_text(), "10.0.0.0/8");
    let pool = Ipv4Pool::from_str("10.0.0.0/00000008").unwrap();
    assert_eq!(pool.to_text(), "10.0.0.0/8");
    let pool = Ipv4Pool::from_str("1.2.3.4/0001").unwrap();
    assert_eq!(pool, Ipv4Pool::new(Ipv4AddrExt::new(1, 2, 3, 4), 1).unwrap());
    let pool = Ipv4Pool::from_str("1.2.3.4/0000").unwrap();
    assert_eq!(pool, Ipv4Pool::new(Ipv4AddrExt::new(1, 2, 3, 4), 0).unwrap());
    let pool = Ipv4Pool::from_str("1.2.3.4/0000000000000000000000000000000024").unwrap();
    assert_eq!(pool, Ipv4Pool::new(Ipv4AddrExt::new(1, 2, 3, 4), 24).unwrap());
}

#[test]
fn pool_parse_errors_by_kind() {
    assert!(matches!(
        Ipv4Pool::from_str("1.2.3.4/33"),
        Err(SubnetworkError::InvalidPrefixLength { prefix: 33, max: 32 })
    ));
    assert!(matches!(
        Ipv4Pool::from_str("1.2.3.4/255"),
        Err(SubnetworkError::InvalidPrefixLength { prefix: 255, max: 32 })
    ));
    // leading zeros do not change the value the prefix field reads as
    assert!(matches!(
        Ipv4Pool::from_str("1.2.3.4/0255"),
        Err(SubnetworkError::InvalidPrefixLength { prefix: 255, max: 32 })
    ));
    assert!(matches!(
        Ipv4Pool::from_str("1.2.3.4/033"),
        Err(SubnetworkError::InvalidPrefixLength { prefix: 33, max: 32 })
    ));
    for text in
        ["1.2.3.4", "1.2.3.4/", "1.2.3.4/x", "1.2.3.4/24/7", "1.2.3.4/256", "1.2.3.4/999",
            "1.2.3.4/00999", "1.2.3.4/2 4", ""] {
        let r = Ipv4Pool::from_str(text);
        assert!(
            matches!(r, Err(SubnetworkError::InvalidInput { ref detail }) if detail.as_str() == text),
            "wrong error for {:?}",
            text
        );
    }
    assert!(matches!(
        Ipv4Pool::from_str("nonip/24"),
        Err(SubnetworkError::AddressParseError { ref detail }) if detail.as_str() == "nonip"
    ));
    assert!(matches!(
        Ipv4Pool::from_str("/24"),
        Err(SubnetworkError::AddressParseError { ref detail }) if detail.as_str().is_empty()
    ));
    assert!(matches!(
        Ipv4Pool::from_str("300.1.1.1/24"),
        Err(SubnetworkError::AddressParseError { ref detail }) if detail.as_str() == "300.1.1.1"
    ));
}

#[test]
fn pool_from_text_behaves_like_pool_from_parts() {
    let parsed = Ipv4Pool::from_str("172.16.5.9/20").unwrap();
    let built = Ipv4Pool::new(Ipv4AddrExt::new(172, 16, 5, 9), 20).unwrap();
    assert_eq!(parsed, built);
    assert_eq!(parsed.network(), Ipv4AddrExt::new(172, 16, 0, 0));
    assert_eq!(parsed.len(), 4096);
}
