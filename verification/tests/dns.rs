//! The resolver's cache and what goes to and comes from getnameinfo.

use netpeek::dns::{host_name, socketaddr_to_c, Resolver};
use netpeek::ntstat::wire::{parse_sockaddr, Endpoint, IpAddr};

#[test]
fn a_host_is_looked_up_once() {
    let ip = IpAddr::V4(0x0101_0101);
    let mut r = Resolver::new();
    assert_eq!(r.lookup(ip), (None, true)); // the first call schedules
    assert_eq!(r.lookup(ip), (None, false)); // still pending
    r.complete(ip, Some("one.one".to_string()));
    assert_eq!(r.lookup(ip), (Some("one.one".to_string()), false));
    assert_eq!(r.lookup(ip), (Some("one.one".to_string()), false));
}

#[test]
fn no_name_is_cached_too() {
    let ip = IpAddr::V6(1);
    let mut r = Resolver::default();
    assert!(r.lookup(ip).1);
    r.complete(ip, None);
    assert_eq!(r.lookup(ip), (None, false));
}

#[test]
fn v4_and_v6_are_told_apart() {
    let mut r = Resolver::new();
    assert!(r.lookup(IpAddr::V4(1)).1);
    assert!(r.lookup(IpAddr::V6(1)).1);
    r.complete(IpAddr::V6(1), Some("localhost".to_string()));
    assert_eq!(r.lookup(IpAddr::V4(1)), (None, false));
    assert_eq!(
        r.lookup(IpAddr::V6(1)),
        (Some("localhost".to_string()), false)
    );
}

#[test]
fn socket_addresses() {
    let ip = IpAddr::V4(u32::from_be_bytes([93, 184, 216, 34]));
    let (b, len) = socketaddr_to_c(ip);
    assert_eq!(len, 16);
    assert_eq!(b.len(), 128);
    assert_eq!(b[..16], [16, 2, 0, 0, 93, 184, 216, 34, 0, 0, 0, 0, 0, 0, 0, 0]);
    assert_eq!(parse_sockaddr(&b, 0), Some(Endpoint { ip, port: 0 }));

    let octets: [u8; 16] = [0x20, 1, 0xd, 0xb8, 0, 0, 0, 0, 0, 0, 0, 0, 0, 0, 0, 7];
    let ip = IpAddr::V6(u128::from_be_bytes(octets));
    let (b, len) = socketaddr_to_c(ip);
    assert_eq!(len, 28);
    assert_eq!(b[..8], [28, 30, 0, 0, 0, 0, 0, 0]);
    assert_eq!(b[8..24], octets);
    assert!(b[24..].iter().all(|x| *x == 0));
    assert_eq!(parse_sockaddr(&b, 0), Some(Endpoint { ip, port: 0 }));

    let (b, _) = socketaddr_to_c(IpAddr::V4(0));
    assert_eq!(parse_sockaddr(&b, 0), None);
}

#[test]
fn host_names() {
    assert_eq!(host_name(0, b"dns.google\0junk"), Some("dns.google".to_string()));
    assert_eq!(host_name(0, b"dns.google"), Some("dns.google".to_string()));
    assert_eq!(host_name(0, b"\0"), None);
    assert_eq!(host_name(8, b"dns.google\0"), None);
    assert_eq!(host_name(0, b"a\xffb\0"), Some("a\u{fffd}b".to_string()));
}
