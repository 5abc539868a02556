//! Tests for the IP anonymizer.

use nel_reporter::ip::{truncate, IpAddress};

fn s(v: Vec<u8>) -> String {
    String::from_utf8(v).unwrap()
}

#[test]
fn v4_example_prefix() {
    let ip = IpAddress::V4([198, 51, 100, 37]);
    assert_eq!(s(truncate(&ip)), "198.51.100.32/28");
}

#[test]
fn v4_low_bits_zeroed_at_top() {
    let ip = IpAddress::V4([255, 255, 255, 255]);
    assert_eq!(s(truncate(&ip)), "255.255.255.240/28");
}

#[test]
fn v4_zero_address() {
    let ip = IpAddress::V4([0, 0, 0, 0]);
    assert_eq!(s(truncate(&ip)), "0.0.0.0/28");
}

#[test]
fn v4_keeps_28_bits_only() {
    // Two addresses differing only below the /28 boundary truncate alike...
    let a = IpAddress::V4([203, 0, 113, 0x41]);
    let b = IpAddress::V4([203, 0, 113, 0x4f]);
    assert_eq!(truncate(&a), truncate(&b));
    // ...and two differing at bit 28 do not.
    let c = IpAddress::V4([203, 0, 113, 0x51]);
    assert_ne!(truncate(&a), truncate(&c));
}

#[test]
fn v6_example_prefix() {
    let mut bytes = [0u8; 16];
    bytes[0] = 0x20;
    bytes[1] = 0x01;
    bytes[2] = 0x0d;
    bytes[3] = 0xb8;
    bytes[4] = 0x12;
    bytes[5] = 0x34;
    bytes[6] = 0x56;
    bytes[7] = 0x78;
    bytes[8] = 0x9a;
    bytes[15] = 0x01;
    let ip = IpAddress::V6(bytes);
    assert_eq!(s(truncate(&ip)), "2001:db8:1234:5600::/56");
}

#[test]
fn v6_zero_address() {
    let ip = IpAddress::V6([0u8; 16]);
    assert_eq!(s(truncate(&ip)), "::/56");
}

#[test]
fn v6_single_leading_group() {
    let mut bytes = [0u8; 16];
    bytes[0] = 0x20;
    bytes[1] = 0x01;
    let ip = IpAddress::V6(bytes);
    assert_eq!(s(truncate(&ip)), "2001::/56");
}

#[test]
fn v6_inner_zero_groups_kept() {
    // Groups 1 and 2 are zero but sit before the last nonzero group, so
    // they are written out; only the zero tail is compressed. The eighth
    // byte sits below the /56 boundary and is masked away.
    let mut bytes = [0u8; 16];
    bytes[1] = 0x01;
    bytes[6] = 0x05;
    bytes[7] = 0xff;
    let ip = IpAddress::V6(bytes);
    assert_eq!(s(truncate(&ip)), "1:0:0:500::/56");
}
