//! Port → service-name resolution.

use netpeek::model::Proto;
use netpeek::services::Services;

#[test]
fn curated_ports_resolve() {
    let s = Services::builtin();
    assert_eq!(s.name(443, Proto::Tcp), Some("https"));
    assert_eq!(s.name(53, Proto::Udp), Some("dns"));
    assert_eq!(s.name(5353, Proto::Udp), Some("mdns"));
    assert_eq!(s.name(7777, Proto::Tcp), None);
}

#[test]
fn label_formats() {
    let s = Services::builtin();
    assert_eq!(s.label(443, Proto::Tcp), "443 (https)");
    assert_eq!(s.label(7777, Proto::Tcp), "7777");
}

#[test]
fn etc_services_fills_gaps_without_overriding_curated() {
    let mut s = Services::builtin();
    s.merge_etc_services(
        "# a comment\n\
         https 443/tcp www\n\
         whois 43/tcp nicname  # who is\n\
         ntp 123/udp\n\
         garbage line\n\
         bad port/tcp\n\
         weird 99/sctp\n",
    );
    // curated https name is preserved (not overwritten by 'https' here anyway)
    assert_eq!(s.name(443, Proto::Tcp), Some("https"));
    // new tcp entry from the file
    assert_eq!(s.name(43, Proto::Tcp), Some("whois"));
    // udp-only entry doesn't leak into tcp
    assert_eq!(s.name(43, Proto::Udp), None);
    // unparseable / non-tcp-udp lines are skipped, no panic
    assert_eq!(s.name(99, Proto::Tcp), None);
}

#[test]
fn curated_names_win_over_the_file() {
    let mut s = Services::builtin();
    s.merge_etc_services("web 443/tcp\nweb 80/udp\nfirst 4242/udp\nsecond 4242/udp");
    assert_eq!(s.label(443, Proto::Tcp), "443 (https)");
    assert_eq!(s.label(80, Proto::Udp), "80 (http)");
    // the first line that names a port wins
    assert_eq!(s.label(4242, Proto::Udp), "4242 (first)");
    assert_eq!(s.label(4242, Proto::Tcp), "4242");
}

#[test]
fn odd_lines() {
    let mut s = Services::builtin();
    s.merge_etc_services(
        "\r\n\u{a0}plus\u{2003}+4001/tcp\r\nzeros 0004002/tcp\nbig 65536/tcp\nmax 65535/tcp\n\
         neg -1/tcp\nempty /tcp\nsign +/tcp\ntwo 4003/tcp/udp\nupper 4004/TCP\n4005/tcp only\n\
         cut 4006/t#cp\nlast 4007/udp",
    );
    assert_eq!(s.name(4001, Proto::Tcp), Some("plus"));
    assert_eq!(s.name(4002, Proto::Tcp), Some("zeros"));
    assert_eq!(s.name(65535, Proto::Tcp), Some("max"));
    assert_eq!(s.name(0, Proto::Tcp), None);
    assert_eq!(s.name(1, Proto::Tcp), None);
    assert_eq!(s.name(4003, Proto::Tcp), None);
    assert_eq!(s.name(4004, Proto::Tcp), None);
    assert_eq!(s.name(4005, Proto::Tcp), None);
    assert_eq!(s.name(4006, Proto::Tcp), None);
    assert_eq!(s.name(4007, Proto::Udp), Some("last"));
}

#[test]
fn every_curated_name() {
    let s = Services::builtin();
    for (port, name) in [
        (53, "dns"),
        (67, "dhcp"),
        (68, "dhcp"),
        (80, "http"),
        (123, "ntp"),
        (143, "imap"),
        (179, "bgp"),
        (443, "https"),
        (465, "smtps"),
        (587, "submission"),
        (993, "imaps"),
        (995, "pop3s"),
        (5223, "apns"),
        (3478, "stun"),
        (3479, "stun"),
        (5060, "sip"),
        (5061, "sips"),
        (8080, "http-alt"),
        (8443, "https-alt"),
        (1900, "ssdp"),
        (5353, "mdns"),
        (22, "ssh"),
        (3306, "mysql"),
        (5432, "postgres"),
        (6379, "redis"),
        (27017, "mongodb"),
        (11211, "memcached"),
        (9418, "git"),
        (2049, "nfs"),
        (548, "afp"),
        (445, "smb"),
        (631, "ipp"),
        (5228, "gcm"),
        (853, "dns-tls"),
        (4500, "ipsec-nat-t"),
        (500, "isakmp"),
        (1194, "openvpn"),
        (51820, "wireguard"),
    ] {
        assert_eq!(s.name(port, Proto::Tcp), Some(name));
        assert_eq!(s.name(port, Proto::Udp), Some(name));
    }
    let known = (0..=65535u16).filter(|p| s.name(*p, Proto::Tcp).is_some()).count();
    assert_eq!(known, 38);
}

#[test]
fn two_files_merge_like_one() {
    let (first, second) = ("a 4001/tcp\nb 4002/tcp", "c 4002/tcp\nd 4003/udp\n");
    let mut one = Services::builtin();
    one.merge_etc_services(&format!("{first}\n{second}"));
    let mut two = Services::builtin();
    two.merge_etc_services(first);
    two.merge_etc_services(second);
    for port in 4000..4005u16 {
        for proto in [Proto::Tcp, Proto::Udp] {
            assert_eq!(one.name(port, proto), two.name(port, proto));
        }
    }
    assert_eq!(one.name(4002, Proto::Tcp), Some("b"));
}

#[test]
fn shown_ports_read_back() {
    for port in [0, 7, 10, 99, 4096, 65535u16] {
        let mut s = Services::default();
        let shown = s.label(port, Proto::Udp);
        s.merge_etc_services(&format!("x {shown}/udp"));
        assert_eq!(s.label(port, Proto::Udp), format!("{port} (x)"));
    }
}
