use dhcp_server::address::{IPAddress, MACAddress};

#[test]
fn ip_parse_plain() {
    let ip = IPAddress::parse("10.128.0.1").unwrap();
    assert_eq!(ip.as_slice(), &[10, 128, 0, 1]);
}

#[test]
fn ip_parse_extremes() {
    assert_eq!(IPAddress::parse("0.0.0.0").unwrap(), IPAddress::new([0, 0, 0, 0]));
    assert_eq!(
        IPAddress::parse("255.255.255.255").unwrap(),
        IPAddress::new([255, 255, 255, 255])
    );
}

#[test]
fn ip_parse_accepts_plus_and_leading_zeros() {
    // The standard library's u8 parser accepts both; so does ours.
    assert_eq!(IPAddress::parse("+10.001.0.09").unwrap(), IPAddress::new([10, 1, 0, 9]));
}

#[test]
fn ip_parse_rejects_bad_forms() {
    assert!(IPAddress::parse("").is_none());
    assert!(IPAddress::parse("10.0.0").is_none());
    assert!(IPAddress::parse("10.0.0.0.1").is_none());
    assert!(IPAddress::parse("10.0.0.").is_none());
    assert!(IPAddress::parse("10..0.1").is_none());
    assert!(IPAddress::parse("256.0.0.1").is_none());
    assert!(IPAddress::parse("10.0.0.x").is_none());
    assert!(IPAddress::parse("-1.0.0.1").is_none());
}

#[test]
fn mac_parse_plain() {
    let mac = MACAddress::parse("aa:bb:cc:dd:ee:01").unwrap();
    assert_eq!(mac.as_slice(), &[0xAA, 0xBB, 0xCC, 0xDD, 0xEE, 0x01]);
}

#[test]
fn mac_parse_mixed_case() {
    let mac = MACAddress::parse("B8:27:eb:BC:3d:F0").unwrap();
    assert_eq!(mac.as_slice(), &[0xB8, 0x27, 0xEB, 0xBC, 0x3D, 0xF0]);
}

#[test]
fn mac_parse_rejects_bad_forms() {
    assert!(MACAddress::parse("").is_none());
    assert!(MACAddress::parse("aa:bb:cc:dd:ee").is_none());
    assert!(MACAddress::parse("aa:bb:cc:dd:ee:ff:00").is_none());
    assert!(MACAddress::parse("aaa:bb:cc:dd:ee:f").is_none());
    assert!(MACAddress::parse("ag:bb:cc:dd:ee:01").is_none());
    assert!(MACAddress::parse("a:bb:cc:dd:ee:012").is_none());
}

#[test]
fn increament_steps_within_octet() {
    let mut ip = IPAddress::new([10, 0, 0, 1]);
    ip.increament();
    assert_eq!(ip, IPAddress::new([10, 0, 0, 2]));
}

#[test]
fn increament_skips_broadcast_and_zero_octets() {
    // From .254 the next host address is .1 of the next subnet: .255 and
    // .0 are both skipped.
    let mut ip = IPAddress::new([10, 0, 0, 254]);
    ip.increament();
    assert_eq!(ip, IPAddress::new([10, 0, 1, 1]));

    let mut ip = IPAddress::new([10, 0, 0, 255]);
    ip.increament();
    assert_eq!(ip, IPAddress::new([10, 0, 1, 1]));
}

#[test]
fn increament_carries_across_octets() {
    let mut ip = IPAddress::new([10, 0, 255, 254]);
    ip.increament();
    assert_eq!(ip, IPAddress::new([10, 1, 0, 1]));

    let mut ip = IPAddress::new([10, 255, 255, 254]);
    ip.increament();
    assert_eq!(ip, IPAddress::new([11, 0, 0, 1]));
}

#[test]
fn increament_never_yields_reserved_last_octet() {
    let mut ip = IPAddress::new([192, 168, 1, 1]);
    for _ in 0..600 {
        ip.increament();
        let last = ip.as_slice()[3];
        assert!(last != 0 && last != 255);
    }
}

#[test]
fn le_is_lexicographic() {
    let a = IPAddress::new([10, 0, 0, 1]);
    let b = IPAddress::new([10, 0, 0, 2]);
    let c = IPAddress::new([9, 255, 255, 254]);
    assert!(a.le(&b));
    assert!(!b.le(&a));
    assert!(a.le(&a));
    assert!(c.le(&a));
    assert!(!a.le(&c));
}
