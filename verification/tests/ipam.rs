use rustocker::ipam::{Ipam, IpamError};

fn ip(a: u8, b: u8, c: u8, d: u8) -> u32 {
    (a as u32) << 24 | (b as u32) << 16 | (c as u32) << 8 | d as u32
}

fn new_ipam(subnet: &str) -> Ipam {
    Ipam::new(subnet).unwrap()
}

#[test]
fn new_derives_gateway_and_subnet_from_cidr() {
    let ipam = new_ipam("172.19.0.0/16");
    assert_eq!(ipam.gateway(), ip(172, 19, 0, 1));
    assert_eq!(ipam.subnet(), 16);
}

#[test]
fn new_rejects_invalid_cidr() {
    let result = Ipam::new("not-a-cidr");
    assert!(matches!(result, Err(IpamError::Io(_))));
}

#[test]
fn allocate_starts_after_gateway_and_increments() {
    let mut ipam = new_ipam("172.19.0.0/16");
    assert_eq!(ipam.allocate("c1").unwrap(), ip(172, 19, 0, 2));
    assert_eq!(ipam.allocate("c2").unwrap(), ip(172, 19, 0, 3));
}

#[test]
fn allocate_is_idempotent_for_same_container() {
    let mut ipam = new_ipam("172.19.0.0/16");
    let first = ipam.allocate("c1").unwrap();
    let second = ipam.allocate("c1").unwrap();
    assert_eq!(first, second);
    assert_eq!(first, ip(172, 19, 0, 2));
}

#[test]
fn allocate_exhausts_small_subnet() {
    let mut ipam = new_ipam("172.19.0.0/30");
    assert_eq!(ipam.allocate("c1").unwrap(), ip(172, 19, 0, 2));
    let err = ipam.allocate("c2").unwrap_err();
    assert!(matches!(err, IpamError::SubnetExhausted));
}

#[test]
fn release_returns_ip_and_frees_it_for_reuse() {
    let mut ipam = new_ipam("172.19.0.0/16");
    let addr = ipam.allocate("c1").unwrap();
    assert_eq!(ipam.release("c1").unwrap(), addr);
    let next = ipam.allocate("c2").unwrap();
    assert_eq!(next, addr);
}

#[test]
fn release_unknown_container_errors() {
    let mut ipam = new_ipam("172.19.0.0/16");
    let err = ipam.release("ghost").unwrap_err();
    assert!(matches!(err, IpamError::ContainerNotFound(_)));
}

#[test]
fn state_persists_and_restores_on_reload() {
    let saved = {
        let mut ipam = new_ipam("172.19.0.0/16");
        ipam.allocate("c1").unwrap();
        (ipam.subnet_addr(), ipam.subnet(), ipam.gateway(), ipam.allocations())
    };
    let mut ipam = Ipam::restore(saved.0, saved.1, saved.2, saved.3).unwrap();
    assert_eq!(ipam.gateway(), ip(172, 19, 0, 1));
    assert_eq!(ipam.subnet(), 16);
    assert_eq!(ipam.allocate("c1").unwrap(), ip(172, 19, 0, 2));
    assert_eq!(ipam.allocate("c2").unwrap(), ip(172, 19, 0, 3));
}

#[test]
fn new_keeps_host_bits_of_the_given_address() {
    let ipam = new_ipam("172.19.0.1/16");
    assert_eq!(ipam.subnet_addr(), ip(172, 19, 0, 1));
    assert_eq!(ipam.gateway(), ip(172, 19, 0, 1));
}

#[test]
fn subnet_without_hosts_is_exhausted_at_once() {
    let mut ipam = new_ipam("10.0.0.0/31");
    assert_eq!(ipam.gateway(), ip(10, 0, 0, 0));
    assert_eq!(ipam.allocate("a").unwrap(), ip(10, 0, 0, 1));
    assert!(matches!(ipam.allocate("b"), Err(IpamError::SubnetExhausted)));
}

#[test]
fn released_lowest_address_is_reused_first() {
    let mut ipam = new_ipam("192.168.1.0/24");
    assert_eq!(ipam.allocate("a").unwrap(), ip(192, 168, 1, 2));
    assert_eq!(ipam.allocate("b").unwrap(), ip(192, 168, 1, 3));
    assert_eq!(ipam.allocate("c").unwrap(), ip(192, 168, 1, 4));
    assert_eq!(ipam.release("b").unwrap(), ip(192, 168, 1, 3));
    assert_eq!(ipam.allocate("d").unwrap(), ip(192, 168, 1, 3));
    assert_eq!(ipam.allocate("e").unwrap(), ip(192, 168, 1, 5));
    let mut pairs = ipam.allocations();
    pairs.sort();
    assert_eq!(
        pairs,
        vec![
            ("a".to_string(), ip(192, 168, 1, 2)),
            ("c".to_string(), ip(192, 168, 1, 4)),
            ("d".to_string(), ip(192, 168, 1, 3)),
            ("e".to_string(), ip(192, 168, 1, 5)),
        ]
    );
}

#[test]
fn restore_refuses_duplicate_containers_and_bad_prefix() {
    let dup = vec![("a".to_string(), 1u32), ("a".to_string(), 2u32)];
    assert!(Ipam::restore(0, 24, 1, dup).is_none());
    assert!(Ipam::restore(0, 33, 1, vec![]).is_none());
}

#[test]
fn prefix_over_32_is_not_a_cidr() {
    assert!(matches!(Ipam::new("10.0.0.0/33"), Err(IpamError::Io(_))));
}

#[test]
fn from_subnet_takes_the_first_host_as_gateway() {
    let ipam = Ipam::from_subnet(ip(10, 1, 2, 3), 24).unwrap();
    assert_eq!(ipam.gateway(), ip(10, 1, 2, 1));
    assert_eq!(ipam.subnet(), 24);
    assert_eq!(ipam.subnet_addr(), ip(10, 1, 2, 3));
    assert!(ipam.allocations().is_empty());
}

#[test]
fn single_address_subnet_has_only_its_gateway() {
    let mut ipam = Ipam::from_subnet(ip(10, 0, 0, 7), 32).unwrap();
    assert_eq!(ipam.gateway(), ip(10, 0, 0, 7));
    assert!(matches!(ipam.allocate("a"), Err(IpamError::SubnetExhausted)));
}

#[test]
fn restore_gives_back_the_saved_manager_in_any_order() {
    let mut ipam = new_ipam("172.19.0.0/16");
    ipam.allocate("a").unwrap();
    ipam.allocate("b").unwrap();
    ipam.allocate("c").unwrap();
    let mut pairs = ipam.allocations();
    pairs.reverse();
    let mut back = Ipam::restore(ipam.subnet_addr(), ipam.subnet(), ipam.gateway(), pairs).unwrap();
    assert_eq!(back.allocate("b").unwrap(), ip(172, 19, 0, 3));
    assert_eq!(back.allocate("d").unwrap(), ip(172, 19, 0, 5));
}
