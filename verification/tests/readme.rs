use subnetwork::addr_v4::Ipv4AddrExt;
use subnetwork::addr_v6::Ipv6AddrExt;
use subnetwork::cross_v4::CrossIpv4Pool;
use subnetwork::mask::NetmaskExt;
use subnetwork::pool_v4::Ipv4Pool;

#[test]
fn readme_example_1() {
    let pool = Ipv4Pool::new(Ipv4AddrExt::new(192, 168, 1, 1), 24).unwrap();
    // from 192.168.1.0 to 192.168.1.255
    for ipv4 in pool.to_vec() {
        println!("{}", ipv4.to_text());
    }

    let pool = Ipv4Pool::from_str("192.168.1.0/24").unwrap();
    for ipv4 in pool.to_vec() {
        println!("{}", ipv4.to_text());
    }

    let test_ipv4 = Ipv4AddrExt::new(192, 168, 1, 233);
    assert_eq!(pool.contain(test_ipv4), true);

    let broadcast = Ipv4AddrExt::new(192, 168, 1, 255);
    assert_eq!(pool.broadcast(), broadcast);

    let network = Ipv4AddrExt::new(192, 168, 1, 0);
    assert_eq!(pool.network(), network);

    assert_eq!(pool.len(), 256);
    // pool is copied; rendering does not consume it
    assert_eq!(pool.to_text(), "192.168.1.0/24");
}

#[test]
fn readme_example_2() {
    let start = Ipv4AddrExt::new(192, 168, 1, 16);
    let end = Ipv4AddrExt::new(192, 168, 3, 200);
    let pool = CrossIpv4Pool::new(start, end).unwrap();
    // include 192.168.1.16 and 192.168.3.200
    for i in pool.to_vec() {
        println!("{:?}", i);
    }

    let test_ipv4 = Ipv4AddrExt::new(192, 168, 1, 233);
    assert_eq!(pool.contain(test_ipv4), true);
    let test_ipv4 = Ipv4AddrExt::new(192, 168, 2, 0);
    assert_eq!(pool.contain(test_ipv4), true);
    let test_ipv4 = Ipv4AddrExt::new(192, 168, 3, 255);
    assert_eq!(pool.contain(test_ipv4), false);
    let test_ipv4 = Ipv4AddrExt::new(192, 168, 3, 200);
    assert_eq!(pool.contain(test_ipv4), true);
}

#[test]
fn readme_example_3() {
    // test1
    let ip1 = Ipv4AddrExt::new(192, 168, 1, 0);
    let ip2 = Ipv4AddrExt::new(192, 168, 1, 255);

    assert_eq!(ip1.largest_identical_prefix(ip2), 24);

    // test 2
    let ip1 = Ipv4AddrExt::new(192, 168, 1, 136);
    let ip2 = Ipv4AddrExt::new(192, 168, 1, 192);

    assert_eq!(ip1.largest_identical_prefix(ip2), 25);
}

#[test]
fn readme_example_4() {
    // ::ffff:192.10.2.255
    let ipv6_ext = Ipv6AddrExt::new(0, 0, 0, 0, 0, 0xffff, 0xc00a, 0x02ff);

    // ff01::1:ff0a:2ff
    let ipv6_node_multicast = Ipv6AddrExt::new(0xff01, 0, 0, 0, 0, 0x0001, 0xff0a, 0x02ff);
    assert_eq!(ipv6_ext.node_multicast(), ipv6_node_multicast);

    // ff02::1:ff0a:2ff
    let ipv6_link_multicast = Ipv6AddrExt::new(0xff02, 0, 0, 0, 0, 0x0001, 0xff0a, 0x02ff);
    assert_eq!(ipv6_ext.link_multicast(), ipv6_link_multicast);

    // ff05::1:ff0a:2ff
    let ipv6_site_multicast = Ipv6AddrExt::new(0xff05, 0, 0, 0, 0, 0x0001, 0xff0a, 0x02ff);
    assert_eq!(ipv6_ext.site_multicast(), ipv6_site_multicast);
}

#[test]
fn readme_example_5() {
    let netmask = NetmaskExt::new(24);
    let netmask_addr = netmask.to_ipv4().unwrap();
    assert_eq!(netmask_addr, Ipv4AddrExt::new(255, 255, 255, 0));

    let netmask = NetmaskExt::new(26);
    let netmask_addr = netmask.to_ipv4().unwrap();
    assert_eq!(netmask_addr, Ipv4AddrExt::new(255, 255, 255, 192));
}

#[test]
fn ipv4_pool_print() {
    let test_str = "192.168.1.0/24";
    let ipv4_pool = Ipv4Pool::from_str(test_str).unwrap();
    let ipv4_pool_str = ipv4_pool.to_text();
    println!("{}", ipv4_pool_str);
}

#[test]
fn ipv4_print() {
    let test_str = "192.168.1.1";
    let ipv4 = Ipv4AddrExt::from_str(test_str).unwrap();
    let ipv4_str = ipv4.to_text();
    assert_eq!(ipv4_str, test_str);
}

#[test]
fn ipv4() {
    let ipv4 = Ipv4AddrExt::from_str("192.168.1.1").unwrap();
    println!("{:b}", ipv4.addr());
    assert_eq!(ipv4.addr(), 3232235777);
}

#[test]
fn test_github_issues_1() {
    // return error instead of panic
    let _pool1 = Ipv4Pool::from_str("1.2.3.4/33");
    let _pool2 = Ipv4Pool::from_str("1.2.3.4/");
    let _pool3 = Ipv4Pool::from_str("nonip/24");
}
