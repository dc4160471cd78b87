//! The kernel protocol, fed with synthetic datagrams.

use netpeek::ntstat::wire::{
    is_tcp_provider, is_udp_provider, looks_valid, parse_datagram, parse_desc, parse_header,
    parse_message, parse_pname, parse_sockaddr, parse_tcp_desc, parse_udp_desc, Counts, Endpoint,
    FlowDesc, IpAddr, Msg, NstatMsgAddAllSrcs, NstatMsgHdr, NstatMsgSrcRefReq, AF_INET, AF_INET6,
    COUNTS_RXBYTES, COUNTS_TXBYTES, NSTAT_FILTER_FLAGS_V1_USAGE, NSTAT_MSG_TYPE_ADD_ALL_SRCS,
    NSTAT_MSG_TYPE_ERROR, NSTAT_MSG_TYPE_QUERY_SRC, NSTAT_MSG_TYPE_SRC_ADDED,
    NSTAT_MSG_TYPE_SRC_COUNTS, NSTAT_MSG_TYPE_SRC_DESC, NSTAT_MSG_TYPE_SRC_REMOVED,
    NSTAT_MSG_TYPE_SRC_UPDATE, NSTAT_MSG_TYPE_SUCCESS, NSTAT_PROVIDER_TCP_KERNEL,
    NSTAT_PROVIDER_TCP_USERLAND, NSTAT_PROVIDER_UDP_KERNEL, NSTAT_PROVIDER_UDP_USERLAND,
    NSTAT_SRC_REF_ALL, SOCKADDR_LEN, SRC_ADDED_PROVIDER, SRC_ADDED_SRCREF, SRC_COUNTS_COUNTS,
    SRC_COUNTS_SRCREF, SRC_DESC_DATA, SRC_DESC_PROVIDER, SRC_DESC_SRCREF, SRC_UPDATE_COUNTS,
    SRC_UPDATE_DATA, SRC_UPDATE_PROVIDER, SRC_UPDATE_SRCREF, TCP_MIN_LEN, TCP_PID, TCP_PNAME,
    TCP_REMOTE, TCP_STATE, UDP_MIN_LEN, UDP_PID, UDP_PNAME, UDP_REMOTE,
};

// Sizes must match the C structs exactly or the kernel rejects our requests.
#[test]
fn request_struct_sizes() {
    assert_eq!(std::mem::size_of::<NstatMsgHdr>(), 16);
    assert_eq!(std::mem::size_of::<NstatMsgAddAllSrcs>(), 56);
    assert_eq!(std::mem::size_of::<NstatMsgSrcRefReq>(), 24);
}

#[test]
fn add_all_srcs_request_is_well_formed() {
    let m = NstatMsgAddAllSrcs::new(7, NSTAT_PROVIDER_TCP_KERNEL);
    assert_eq!(m.hdr.msg_type, NSTAT_MSG_TYPE_ADD_ALL_SRCS);
    assert_eq!(m.hdr.length, 56);
    assert_eq!(m.hdr.context, 7);
    assert_eq!(m.provider, NSTAT_PROVIDER_TCP_KERNEL);
    assert_eq!(m.target_pid, -1);
    assert_ne!(m.filter & NSTAT_FILTER_FLAGS_V1_USAGE, 0);
    // round-trips through bytes
    let bytes = m.to_bytes();
    assert_eq!(bytes.len(), 56);
    assert_eq!(parse_header(&bytes), m.hdr);
}

#[test]
fn srcref_req_request_is_well_formed() {
    let q = NstatMsgSrcRefReq::new(1, NSTAT_MSG_TYPE_QUERY_SRC, NSTAT_SRC_REF_ALL);
    assert_eq!(q.hdr.msg_type, NSTAT_MSG_TYPE_QUERY_SRC);
    assert_eq!(q.hdr.length, 24);
    assert_eq!(q.srcref, u64::MAX);
}

#[test]
fn provider_classification() {
    assert!(is_tcp_provider(NSTAT_PROVIDER_TCP_KERNEL));
    assert!(is_tcp_provider(NSTAT_PROVIDER_TCP_USERLAND));
    assert!(!is_tcp_provider(NSTAT_PROVIDER_UDP_KERNEL));
    assert!(is_udp_provider(NSTAT_PROVIDER_UDP_KERNEL));
    assert!(is_udp_provider(NSTAT_PROVIDER_UDP_USERLAND));
    assert!(!is_udp_provider(NSTAT_PROVIDER_TCP_KERNEL));
}

fn v4_sockaddr(ip: [u8; 4], port: u16) -> [u8; SOCKADDR_LEN] {
    let mut b = [0u8; SOCKADDR_LEN];
    b[0] = 16; // sin_len
    b[1] = AF_INET;
    b[2..4].copy_from_slice(&port.to_be_bytes());
    b[4..8].copy_from_slice(&ip);
    b
}

fn v6_sockaddr(ip: [u8; 16], port: u16) -> [u8; SOCKADDR_LEN] {
    let mut b = [0u8; SOCKADDR_LEN];
    b[0] = 28;
    b[1] = AF_INET6;
    b[2..4].copy_from_slice(&port.to_be_bytes());
    b[8..24].copy_from_slice(&ip);
    b
}

#[test]
fn sockaddr_v4_v6_and_unspecified() {
    let v4 = v4_sockaddr([93, 184, 216, 34], 443);
    let ep = parse_sockaddr(&v4, 0).unwrap();
    assert_eq!(ep.ip, IpAddr::V4(u32::from_be_bytes([93, 184, 216, 34])));
    assert_eq!(ep.port, 443);

    let mut ip6 = [0u8; 16];
    ip6[0] = 0x20;
    ip6[1] = 0x01;
    ip6[15] = 0x01;
    let v6 = v6_sockaddr(ip6, 53);
    let ep = parse_sockaddr(&v6, 0).unwrap();
    assert_eq!(ep.port, 53);
    assert!(matches!(ep.ip, IpAddr::V6(_)));
    assert_eq!(ep.ip, IpAddr::V6(u128::from_be_bytes(ip6)));

    // unspecified 0.0.0.0:0 → None
    assert!(parse_sockaddr(&v4_sockaddr([0, 0, 0, 0], 0), 0).is_none());
    // unspecified [::]:0 → None
    assert!(parse_sockaddr(&v6_sockaddr([0u8; 16], 0), 0).is_none());
    // unknown family → None
    let mut bad = v4;
    bad[1] = 99;
    assert!(parse_sockaddr(&bad, 0).is_none());
    // too short → None
    assert!(parse_sockaddr(&[0u8; 4], 0).is_none());
}

#[test]
fn unspecified_address_with_a_port_is_an_endpoint() {
    let b = v4_sockaddr([0, 0, 0, 0], 68);
    let want = Endpoint {
        ip: IpAddr::V4(0),
        port: 68,
    };
    assert_eq!(parse_sockaddr(&b, 0), Some(want));
    // one byte short of the union
    assert_eq!(parse_sockaddr(&b, 1), None);
    let b = v6_sockaddr([0u8; 16], 546);
    assert_eq!(parse_sockaddr(&b, 0).unwrap().port, 546);
}

#[test]
fn parse_pname_handles_short_buffer() {
    // a buffer shorter than PNAME_LEN starting at off → fallback slice, no panic
    let buf = b"curl\0".to_vec();
    assert_eq!(parse_pname(&buf, 0), "curl");
    // offset past the end → empty string
    assert_eq!(parse_pname(&buf, 999), "");
}

#[test]
fn parse_desc_rejects_unknown_provider() {
    // a provider that's neither TCP nor UDP yields no descriptor
    assert!(parse_desc(999, &[0u8; TCP_MIN_LEN]).is_none());
}

#[test]
fn pname_strips_control_bytes_and_nul_terminates() {
    let mut buf = vec![0u8; UDP_MIN_LEN];
    let name = b"firefox\x1b[31m\x00ignored-after-nul";
    buf[UDP_PNAME..UDP_PNAME + name.len()].copy_from_slice(name);
    let s = parse_pname(&buf, UDP_PNAME);
    assert!(s.starts_with("firefox"));
    assert!(!s.contains('\x1b'));
    assert!(!s.contains("ignored"));
    assert_eq!(s, "firefox\u{fffd}[31m");
}

#[test]
fn pname_that_is_not_utf8_is_replaced() {
    assert_eq!(parse_pname(b"a\xffb", 0), "a\u{fffd}b");
    assert_eq!(parse_pname("n\u{e9}\u{85}t".as_bytes(), 0), "n\u{e9}\u{fffd}t");
    // a full field without a NUL ends with the field
    let long = [b'x'; 80];
    assert_eq!(parse_pname(&long, 0).len(), 64);
}

/// Build a synthetic SRC_DESC datagram for a TCP descriptor.
fn tcp_desc_msg(srcref: u64, pid: u32, state: u32, remote: [u8; 4], port: u16) -> Vec<u8> {
    let total = SRC_DESC_DATA + TCP_MIN_LEN;
    let mut m = vec![0u8; total];
    // header
    m[0..8].copy_from_slice(&0u64.to_le_bytes()); // context
    m[8..12].copy_from_slice(&NSTAT_MSG_TYPE_SRC_DESC.to_le_bytes());
    m[12..14].copy_from_slice(&(total as u16).to_le_bytes());
    // srcref + provider
    m[SRC_DESC_SRCREF..SRC_DESC_SRCREF + 8].copy_from_slice(&srcref.to_le_bytes());
    m[SRC_DESC_PROVIDER..SRC_DESC_PROVIDER + 4]
        .copy_from_slice(&NSTAT_PROVIDER_TCP_KERNEL.to_le_bytes());
    // descriptor payload
    let d = SRC_DESC_DATA;
    m[d + TCP_PID..d + TCP_PID + 4].copy_from_slice(&pid.to_le_bytes());
    m[d + TCP_STATE..d + TCP_STATE + 4].copy_from_slice(&state.to_le_bytes());
    m[d + TCP_REMOTE..d + TCP_REMOTE + SOCKADDR_LEN].copy_from_slice(&v4_sockaddr(remote, port));
    let name = b"curl";
    m[d + TCP_PNAME..d + TCP_PNAME + name.len()].copy_from_slice(name);
    m
}

#[test]
fn parse_tcp_desc_message() {
    let m = tcp_desc_msg(0xABCD, 4321, 4 /*ESTABLISHED*/, [1, 1, 1, 1], 443);
    let msgs = parse_datagram(&m);
    assert_eq!(msgs.len(), 1);
    match &msgs[0] {
        Msg::SrcDesc {
            srcref,
            provider,
            desc,
        } => {
            assert_eq!(*srcref, 0xABCD);
            assert_eq!(*provider, NSTAT_PROVIDER_TCP_KERNEL);
            assert_eq!(desc.pid, 4321);
            assert_eq!(desc.pname, "curl");
            assert_eq!(desc.tcp_state, 4);
            assert_eq!(desc.remote.unwrap().port, 443);
        }
        other => panic!("expected SrcDesc, got {other:?}"),
    }
}

#[test]
fn tcp_desc_with_bogus_pid_is_dropped() {
    // pid 0 fails validation → parse returns None → no SrcDesc emitted.
    let m = tcp_desc_msg(1, 0, 4, [1, 1, 1, 1], 443);
    let msgs = parse_datagram(&m);
    assert!(msgs.is_empty());
}

#[test]
fn plausible_descriptors() {
    let mut desc = FlowDesc {
        pid: 0x003f_ffff,
        pname: String::new(),
        local: None,
        remote: Some(Endpoint {
            ip: IpAddr::V4(1),
            port: 0,
        }),
        tcp_state: 0,
    };
    assert!(looks_valid(&desc));
    desc.pid = 0x0040_0000;
    assert!(!looks_valid(&desc));
    desc.pid = 1;
    desc.local = desc.remote;
    desc.remote = None;
    assert!(looks_valid(&desc));
    desc.local = None;
    assert!(!looks_valid(&desc));
}

#[test]
fn short_descriptor_is_rejected() {
    assert!(parse_tcp_desc(&[0u8; 8]).is_none());
    assert!(parse_udp_desc(&[0u8; 8]).is_none());
}

fn added_counts_removed() -> [Vec<u8>; 3] {
    // SRC_ADDED
    let mut added = vec![0u8; 32];
    added[8..12].copy_from_slice(&NSTAT_MSG_TYPE_SRC_ADDED.to_le_bytes());
    added[12..14].copy_from_slice(&32u16.to_le_bytes());
    added[SRC_ADDED_SRCREF..SRC_ADDED_SRCREF + 8].copy_from_slice(&5u64.to_le_bytes());
    added[SRC_ADDED_PROVIDER..SRC_ADDED_PROVIDER + 4]
        .copy_from_slice(&NSTAT_PROVIDER_UDP_KERNEL.to_le_bytes());

    // SRC_COUNTS (144 bytes total)
    let mut counts = vec![0u8; 144];
    counts[8..12].copy_from_slice(&NSTAT_MSG_TYPE_SRC_COUNTS.to_le_bytes());
    counts[12..14].copy_from_slice(&144u16.to_le_bytes());
    counts[SRC_COUNTS_SRCREF..SRC_COUNTS_SRCREF + 8].copy_from_slice(&5u64.to_le_bytes());
    counts[SRC_COUNTS_COUNTS + COUNTS_RXBYTES..SRC_COUNTS_COUNTS + COUNTS_RXBYTES + 8]
        .copy_from_slice(&1000u64.to_le_bytes());
    counts[SRC_COUNTS_COUNTS + COUNTS_TXBYTES..SRC_COUNTS_COUNTS + COUNTS_TXBYTES + 8]
        .copy_from_slice(&250u64.to_le_bytes());

    // SRC_REMOVED
    let mut removed = vec![0u8; 24];
    removed[8..12].copy_from_slice(&NSTAT_MSG_TYPE_SRC_REMOVED.to_le_bytes());
    removed[12..14].copy_from_slice(&24u16.to_le_bytes());
    removed[SRC_ADDED_SRCREF..SRC_ADDED_SRCREF + 8].copy_from_slice(&5u64.to_le_bytes());
    [added, counts, removed]
}

#[test]
fn parse_src_added_counts_removed() {
    let [added, counts, removed] = added_counts_removed();

    // concatenate into one aggregate datagram
    let mut dg = Vec::new();
    dg.extend_from_slice(&added);
    dg.extend_from_slice(&counts);
    dg.extend_from_slice(&removed);

    let msgs = parse_datagram(&dg);
    assert_eq!(msgs.len(), 3);
    assert_eq!(
        msgs[0],
        Msg::SrcAdded {
            srcref: 5,
            provider: NSTAT_PROVIDER_UDP_KERNEL
        }
    );
    assert_eq!(
        msgs[1],
        Msg::SrcCounts {
            srcref: 5,
            counts: Counts {
                rx_bytes: 1000,
                tx_bytes: 250
            }
        }
    );
    assert_eq!(msgs[2], Msg::SrcRemoved { srcref: 5 });
}

#[test]
fn aggregate_is_its_parts_in_order() {
    let parts = added_counts_removed();
    let mut dg = Vec::new();
    let mut msgs = Vec::new();
    for p in &parts {
        dg.extend_from_slice(p);
        msgs.extend(parse_datagram(p));
    }
    // bytes too few for a header are ignored
    dg.extend_from_slice(&[0xff; 15]);
    assert_eq!(parse_datagram(&dg), msgs);
}

#[test]
fn bodies_too_short_for_their_fields_are_skipped() {
    assert_eq!(parse_message(NSTAT_MSG_TYPE_SRC_ADDED, &[0; 27]), None);
    assert_eq!(parse_message(NSTAT_MSG_TYPE_SRC_REMOVED, &[0; 23]), None);
    assert_eq!(parse_message(NSTAT_MSG_TYPE_SRC_COUNTS, &[0; 63]), None);
    assert_eq!(parse_message(NSTAT_MSG_TYPE_SRC_DESC, &[0; 39]), None);
    assert_eq!(parse_message(NSTAT_MSG_TYPE_SRC_UPDATE, &[0; 147]), None);
    // an error without a code counts as code 0
    assert_eq!(
        parse_message(NSTAT_MSG_TYPE_ERROR, &[1; 19]),
        Some(Msg::Error { code: 0 })
    );
    // an update too short for its descriptor keeps its counters
    assert_eq!(
        parse_message(NSTAT_MSG_TYPE_SRC_UPDATE, &[0; 148]),
        Some(Msg::SrcUpdate {
            srcref: 0,
            provider: 0,
            counts: Counts::default(),
            desc: None
        })
    );
    assert!(parse_message(NSTAT_MSG_TYPE_SRC_ADDED, &[0; 28]).is_some());
    assert!(parse_message(NSTAT_MSG_TYPE_SRC_COUNTS, &[0; 64]).is_some());
}

#[test]
fn parse_error_success_and_other() {
    let mut err = vec![0u8; 24];
    err[8..12].copy_from_slice(&NSTAT_MSG_TYPE_ERROR.to_le_bytes());
    err[12..14].copy_from_slice(&24u16.to_le_bytes());
    err[16..20].copy_from_slice(&13u32.to_le_bytes()); // EACCES-ish
    assert_eq!(parse_datagram(&err), vec![Msg::Error { code: 13 }]);

    let mut ok = vec![0u8; 16];
    ok[8..12].copy_from_slice(&NSTAT_MSG_TYPE_SUCCESS.to_le_bytes());
    ok[12..14].copy_from_slice(&16u16.to_le_bytes());
    assert_eq!(parse_datagram(&ok), vec![Msg::Success]);

    // an unmodelled type (e.g. SYSINFO) → Other
    let mut other = vec![0u8; 16];
    other[8..12].copy_from_slice(&10005u32.to_le_bytes());
    other[12..14].copy_from_slice(&16u16.to_le_bytes());
    assert_eq!(parse_datagram(&other), vec![Msg::Other { msg_type: 10005 }]);
}

#[test]
fn datagram_walk_stops_on_garbage_length() {
    // a message claiming a length smaller than the header → walk stops
    let mut bad = vec![0u8; 16];
    bad[8..12].copy_from_slice(&NSTAT_MSG_TYPE_SUCCESS.to_le_bytes());
    bad[12..14].copy_from_slice(&4u16.to_le_bytes()); // < 16
    assert!(parse_datagram(&bad).is_empty());

    // length running past the buffer → walk stops
    let mut over = vec![0u8; 16];
    over[8..12].copy_from_slice(&NSTAT_MSG_TYPE_SUCCESS.to_le_bytes());
    over[12..14].copy_from_slice(&999u16.to_le_bytes());
    assert!(parse_datagram(&over).is_empty());

    // trailing bytes shorter than a header are ignored
    let mut ok = vec![0u8; 16];
    ok[8..12].copy_from_slice(&NSTAT_MSG_TYPE_SUCCESS.to_le_bytes());
    ok[12..14].copy_from_slice(&16u16.to_le_bytes());
    ok.extend_from_slice(&[0u8; 4]);
    assert_eq!(parse_datagram(&ok), vec![Msg::Success]);
}

#[test]
fn parse_src_update_bundles_counts_and_desc() {
    let total = SRC_UPDATE_DATA + UDP_MIN_LEN;
    let mut m = vec![0u8; total];
    m[8..12].copy_from_slice(&NSTAT_MSG_TYPE_SRC_UPDATE.to_le_bytes());
    m[12..14].copy_from_slice(&(total as u16).to_le_bytes());
    m[SRC_UPDATE_SRCREF..SRC_UPDATE_SRCREF + 8].copy_from_slice(&9u64.to_le_bytes());
    m[SRC_UPDATE_COUNTS + COUNTS_RXBYTES..SRC_UPDATE_COUNTS + COUNTS_RXBYTES + 8]
        .copy_from_slice(&42u64.to_le_bytes());
    m[SRC_UPDATE_PROVIDER..SRC_UPDATE_PROVIDER + 4]
        .copy_from_slice(&NSTAT_PROVIDER_UDP_KERNEL.to_le_bytes());
    let d = SRC_UPDATE_DATA;
    m[d + UDP_PID..d + UDP_PID + 4].copy_from_slice(&777u32.to_le_bytes());
    m[d + UDP_REMOTE..d + UDP_REMOTE + SOCKADDR_LEN]
        .copy_from_slice(&v4_sockaddr([8, 8, 8, 8], 53));
    let name = b"mDNSResponder";
    m[d + UDP_PNAME..d + UDP_PNAME + name.len()].copy_from_slice(name);

    match &parse_datagram(&m)[0] {
        Msg::SrcUpdate {
            srcref,
            counts,
            desc,
            ..
        } => {
            assert_eq!(*srcref, 9);
            assert_eq!(counts.rx_bytes, 42);
            let desc = desc.as_ref().unwrap();
            assert_eq!(desc.pid, 777);
            assert_eq!(desc.pname, "mDNSResponder");
            assert_eq!(desc.remote.unwrap().port, 53);
        }
        other => panic!("expected SrcUpdate, got {other:?}"),
    }
}

#[test]
fn headers_read_every_field() {
    let bytes: Vec<u8> = (1..=20).collect();
    assert_eq!(
        parse_header(&bytes),
        NstatMsgHdr {
            context: 0x0807_0605_0403_0201,
            msg_type: 0x0c0b_0a09,
            length: 0x0e0d,
            flags: 0x100f,
        }
    );
}

#[test]
fn requests_as_bytes() {
    let q = NstatMsgSrcRefReq::new(0x1122_3344_5566_7788, 1005, 0x0102_0304_0506_0708);
    assert_eq!(
        q.to_bytes(),
        vec![
            0x88, 0x77, 0x66, 0x55, 0x44, 0x33, 0x22, 0x11, 0xed, 0x03, 0, 0, 24, 0, 1, 0, 8, 7, 6,
            5, 4, 3, 2, 1
        ]
    );
    let mut m = NstatMsgAddAllSrcs::new(0x1000, 3);
    m.target_uuid[15] = 9;
    let b = m.to_bytes();
    assert_eq!(b[0..8], 0x1000u64.to_le_bytes());
    assert_eq!(b[8..12], 1002u32.to_le_bytes());
    assert_eq!(b[12..16], [56, 0, 1, 0]);
    assert_eq!(b[16..24], 0x1f7fu64.to_le_bytes());
    assert_eq!(b[24..32], [0; 8]);
    assert_eq!(b[32..36], [3, 0, 0, 0]);
    assert_eq!(b[36..40], [0xff; 4]);
    assert_eq!(b[40..55], [0; 15]);
    assert_eq!(b[55], 9);
}
