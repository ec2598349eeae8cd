use dhcp_server::config::Configuration;
use dhcp_server::server::leases::Leases;
use dhcp_server::{IPAddress, MACAddress};

fn pool(start: [u8; 4], end: [u8; 4]) -> Configuration {
    Configuration {
        lease_start_ip: IPAddress::new(start),
        lease_final_ip: IPAddress::new(end),
        gateway_ip: IPAddress::new([10, 128, 0, 254]),
        our_ip: IPAddress::new([10, 128, 0, 100]),
        subnet_mask: IPAddress::new([255, 255, 255, 0]),
        broadcast_address: IPAddress::new([10, 128, 0, 255]),
        dns: IPAddress::new([1, 1, 1, 1]),
        dns_alternative: IPAddress::new([8, 8, 8, 8]),
        reserved_ips: Vec::new(),
        address_time: 172800,
        renewal_time: 86400,
        rebinding_time: 129600,
        offer_time: 30,
        log_limit: None,
    }
}

fn mac(last: u8) -> MACAddress {
    MACAddress::new([0xAA, 0xBB, 0xCC, 0xDD, 0xEE, last])
}

#[test]
fn allocate_walks_the_pool_in_order() {
    let mut l = Leases::new(&pool([10, 128, 0, 1], [10, 128, 0, 5]));
    assert_eq!(l.allocate(mac(1), 0), Some(IPAddress::new([10, 128, 0, 1])));
    assert_eq!(l.allocate(mac(2), 0), Some(IPAddress::new([10, 128, 0, 2])));
    assert_eq!(l.allocate(mac(3), 0), Some(IPAddress::new([10, 128, 0, 3])));
}

#[test]
fn allocate_exhausts_the_pool() {
    let mut l = Leases::new(&pool([10, 128, 0, 1], [10, 128, 0, 2]));
    assert!(l.allocate(mac(1), 0).is_some());
    assert!(l.allocate(mac(2), 0).is_some());
    assert_eq!(l.allocate(mac(3), 0), None);
}

#[test]
fn allocate_skips_reserved_last_octets() {
    let mut l = Leases::new(&pool([10, 0, 0, 254], [10, 0, 1, 2]));
    assert_eq!(l.allocate(mac(1), 0), Some(IPAddress::new([10, 0, 0, 254])));
    // .255 and .0 are never handed out.
    assert_eq!(l.allocate(mac(2), 0), Some(IPAddress::new([10, 0, 1, 1])));
    assert_eq!(l.allocate(mac(3), 0), Some(IPAddress::new([10, 0, 1, 2])));
    assert_eq!(l.allocate(mac(4), 0), None);
}

#[test]
fn accept_offer_commits_the_binding() {
    let mut l = Leases::new(&pool([10, 128, 0, 1], [10, 128, 0, 5]));
    let ip = l.allocate(mac(1), 0).unwrap();
    assert!(l.accept_offer(ip, mac(1), 1));
    assert_eq!(l.get_ip_address(mac(1)), Some(ip));
}

#[test]
fn accept_offer_refuses_another_mac() {
    let mut l = Leases::new(&pool([10, 128, 0, 1], [10, 128, 0, 5]));
    let ip = l.allocate(mac(1), 0).unwrap();
    assert!(!l.accept_offer(ip, mac(2), 1));
    // The offer is untouched; the rightful MAC can still commit.
    assert!(l.accept_offer(ip, mac(1), 2));
}

#[test]
fn accept_offer_refuses_out_of_range() {
    let mut l = Leases::new(&pool([10, 128, 0, 1], [10, 128, 0, 5]));
    assert!(!l.accept_offer(IPAddress::new([10, 128, 0, 99]), mac(1), 0));
    assert!(!l.accept_offer(IPAddress::new([10, 127, 255, 254]), mac(1), 0));
}

#[test]
fn accept_offer_allows_unoffered_in_range() {
    // A REQUEST for a free in-range address succeeds without a prior
    // offer.
    let mut l = Leases::new(&pool([10, 128, 0, 1], [10, 128, 0, 5]));
    assert!(l.accept_offer(IPAddress::new([10, 128, 0, 4]), mac(1), 0));
    assert_eq!(l.get_ip_address(mac(1)), Some(IPAddress::new([10, 128, 0, 4])));
}

#[test]
fn accept_offer_is_idempotent() {
    let mut l = Leases::new(&pool([10, 128, 0, 1], [10, 128, 0, 5]));
    let ip = l.allocate(mac(1), 0).unwrap();
    assert!(l.accept_offer(ip, mac(1), 1));
    // Repeating the commit with the same arguments succeeds again and
    // only refreshes the timestamp.
    assert!(l.accept_offer(ip, mac(1), 50));
    assert_eq!(l.get_ip_address(mac(1)), Some(ip));
    assert_eq!(l.current_leases().len(), 1);
}

#[test]
fn release_frees_only_the_owners_binding() {
    let mut l = Leases::new(&pool([10, 128, 0, 1], [10, 128, 0, 5]));
    let ip = l.allocate(mac(1), 0).unwrap();
    assert!(l.accept_offer(ip, mac(1), 1));

    // Another MAC cannot release it.
    l.release(ip, mac(2));
    assert_eq!(l.get_ip_address(mac(1)), Some(ip));

    l.release(ip, mac(1));
    assert_eq!(l.get_ip_address(mac(1)), None);
}

#[test]
fn released_address_is_allocated_again() {
    let mut l = Leases::new(&pool([10, 128, 0, 1], [10, 128, 0, 1]));
    let ip = l.allocate(mac(1), 0).unwrap();
    assert!(l.accept_offer(ip, mac(1), 0));
    // The single address is committed: the pool is exhausted.
    assert_eq!(l.allocate(mac(2), 1), None);
    l.release(ip, mac(1));
    assert_eq!(l.allocate(mac(2), 2), Some(ip));
}

#[test]
fn clean_reclaims_expired_offers() {
    let mut l = Leases::new(&pool([10, 128, 0, 1], [10, 128, 0, 1]));
    assert!(l.allocate(mac(1), 0).is_some());
    assert_eq!(l.allocate(mac(2), 1), None);
    // The offer was made at 0 and held for 30 seconds: at 31 it expires.
    l.clean_leases(31);
    assert_eq!(l.allocate(mac(2), 31), Some(IPAddress::new([10, 128, 0, 1])));
}

#[test]
fn clean_keeps_live_offers() {
    let mut l = Leases::new(&pool([10, 128, 0, 1], [10, 128, 0, 1]));
    assert!(l.allocate(mac(1), 0).is_some());
    l.clean_leases(29);
    assert_eq!(l.allocate(mac(2), 29), None);
}

#[test]
fn clean_reclaims_expired_leases() {
    let mut l = Leases::new(&pool([10, 128, 0, 1], [10, 128, 0, 1]));
    let ip = l.allocate(mac(1), 0).unwrap();
    assert!(l.accept_offer(ip, mac(1), 0));
    // The lease runs two days: 172800 seconds.
    l.clean_leases(172799);
    assert_eq!(l.get_ip_address(mac(1)), Some(ip));
    l.clean_leases(172801);
    assert_eq!(l.get_ip_address(mac(1)), None);
}

#[test]
fn current_leases_lists_committed_bindings() {
    let mut l = Leases::new(&pool([10, 128, 0, 1], [10, 128, 0, 5]));
    let a = l.allocate(mac(1), 0).unwrap();
    let b = l.allocate(mac(2), 0).unwrap();
    assert!(l.accept_offer(a, mac(1), 0));
    assert!(l.accept_offer(b, mac(2), 0));
    let listed = l.current_leases();
    assert_eq!(listed.len(), 2);
    assert!(listed.contains(&(a, mac(1))));
    assert!(listed.contains(&(b, mac(2))));
}

#[test]
fn timer_getters() {
    let l = Leases::new(&pool([10, 128, 0, 1], [10, 128, 0, 5]));
    assert_eq!(l.address_time(), 172800);
    assert_eq!(l.renewal_time(), 86400);
    assert_eq!(l.rebinding_time(), 129600);
}
