//! The monitor: requests, pacing and the folding of messages.

use netpeek::model::Proto;
use netpeek::ntstat::wire::{
    parse_header, Counts, Endpoint, FlowDesc, IpAddr, Msg, NSTAT_MSG_TYPE_GET_SRC_DESC,
    NSTAT_MSG_TYPE_QUERY_SRC, NSTAT_PROVIDER_TCP_KERNEL, NSTAT_PROVIDER_UDP_USERLAND,
};
use netpeek::ntstat::{exe_name, file_name, proto_of, Monitor, DESC_BATCH, ENOBUFS};

const SECOND: u64 = 1_000_000_000;

fn desc(pid: u32, name: &str) -> FlowDesc {
    FlowDesc {
        pid,
        pname: name.to_string(),
        local: None,
        remote: Some(Endpoint {
            ip: IpAddr::V4(1),
            port: 443,
        }),
        tcp_state: 4,
    }
}

fn added(srcref: u64, provider: u32) -> Msg {
    Msg::SrcAdded { srcref, provider }
}

#[test]
fn subscriptions_cover_the_four_providers() {
    let reqs = Monitor::subscribe();
    assert_eq!(reqs.len(), 4);
    for (i, req) in reqs.iter().enumerate() {
        assert_eq!(req.len(), 56);
        assert_eq!(parse_header(req).context, 0x1000 + i as u64);
        assert_eq!(req[32..36], (2 + i as u32).to_le_bytes());
    }
}

#[test]
fn poll_asks_for_every_source() {
    let req = Monitor::poll_counts();
    let hdr = parse_header(&req);
    assert_eq!(hdr.context, 0xC0);
    assert_eq!(hdr.msg_type, NSTAT_MSG_TYPE_QUERY_SRC);
    assert_eq!(req[16..24], [0xff; 8]);
}

#[test]
fn descriptor_requests_are_paced_in_order() {
    let mut m = Monitor::new(60);
    for s in 0..20u64 {
        m.apply(added(s, NSTAT_PROVIDER_TCP_KERNEL), None);
    }
    let mut sent = Vec::new();
    while let Some(req) = m.pump_desc_requests(sent.len()) {
        assert_eq!(parse_header(&req).msg_type, NSTAT_MSG_TYPE_GET_SRC_DESC);
        sent.push(parse_header(&req).context);
    }
    assert_eq!(sent.len(), DESC_BATCH);
    assert_eq!(sent, (0..16).collect::<Vec<u64>>());
    let mut rest = Vec::new();
    while let Some(req) = m.pump_desc_requests(rest.len()) {
        rest.push(u64::from_le_bytes(req[16..24].try_into().unwrap()));
    }
    assert_eq!(rest, vec![16, 17, 18, 19]);
}

#[test]
fn a_flow_is_described_once_whatever_comes_between() {
    let mut m = Monitor::new(60);
    m.apply(added(5, NSTAT_PROVIDER_TCP_KERNEL), None);
    assert!(m.pump_desc_requests(0).is_some());
    m.apply(
        Msg::SrcDesc {
            srcref: 5,
            provider: NSTAT_PROVIDER_TCP_KERNEL,
            desc: desc(42, "x"),
        },
        None,
    );
    m.apply(Msg::SrcRemoved { srcref: 6 }, None);
    m.apply(Msg::Error { code: 13 }, None);
    m.apply(added(5, NSTAT_PROVIDER_UDP_USERLAND), None);
    assert!(m.pump_desc_requests(0).is_none());
    m.apply(Msg::SrcRemoved { srcref: 5 }, None);
    m.apply(added(5, NSTAT_PROVIDER_TCP_KERNEL), None);
    assert!(m.pump_desc_requests(0).is_some());
}

#[test]
fn a_flow_is_described_once() {
    let mut m = Monitor::new(60);
    m.apply(added(5, NSTAT_PROVIDER_TCP_KERNEL), None);
    m.apply(added(5, NSTAT_PROVIDER_TCP_KERNEL), None);
    assert!(m.pump_desc_requests(0).is_some());
    assert!(m.pump_desc_requests(1).is_none());
    m.apply(added(5, NSTAT_PROVIDER_TCP_KERNEL), None);
    assert!(m.pump_desc_requests(0).is_none());
    // once removed, the srcref may come back as another flow
    m.apply(Msg::SrcRemoved { srcref: 5 }, None);
    m.apply(added(5, NSTAT_PROVIDER_TCP_KERNEL), None);
    assert!(m.pump_desc_requests(0).is_some());
}

#[test]
fn messages_reach_the_engine() {
    let mut m = Monitor::new(60);
    m.apply(added(1, NSTAT_PROVIDER_UDP_USERLAND), None);
    m.apply(
        Msg::SrcDesc {
            srcref: 1,
            provider: NSTAT_PROVIDER_UDP_USERLAND,
            desc: desc(42, "mdns"),
        },
        Some("other".to_string()),
    );
    m.apply(
        Msg::SrcCounts {
            srcref: 1,
            counts: Counts {
                rx_bytes: 10,
                tx_bytes: 20,
            },
        },
        None,
    );
    m.tick(SECOND);
    let row = &m.engine().rows()[0];
    assert_eq!(row.name, "mdns"); // the kernel's name wins
    assert_eq!((row.rx_total, row.tx_total), (10, 20));
    assert_eq!(m.engine().flows_for(42)[0].proto, Proto::Udp);
    m.apply(
        Msg::SrcUpdate {
            srcref: 1,
            provider: 99,
            counts: Counts {
                rx_bytes: 1000,
                tx_bytes: 20,
            },
            desc: None,
        },
        None,
    );
    m.reprime();
    m.tick(SECOND);
    assert_eq!(m.engine().rows()[0].rx_delta, 0);
    m.apply(Msg::SrcRemoved { srcref: 1 }, None);
    m.tick(SECOND);
    assert!(m.engine().rows().is_empty());
}

#[test]
fn unnamed_flows_take_the_executables_name() {
    let msg = Msg::SrcDesc {
        srcref: 1,
        provider: NSTAT_PROVIDER_TCP_KERNEL,
        desc: desc(42, ""),
    };
    assert_eq!(Monitor::wants_name(&msg), Some(42));
    let mut m = Monitor::new(60);
    m.apply(msg, Some("curl".to_string()));
    m.tick(SECOND);
    assert_eq!(m.engine().rows()[0].name, "curl");

    let named = Msg::SrcDesc {
        srcref: 1,
        provider: NSTAT_PROVIDER_TCP_KERNEL,
        desc: desc(42, "x"),
    };
    assert_eq!(Monitor::wants_name(&named), None);
    let foreign = Msg::SrcDesc {
        srcref: 1,
        provider: 99,
        desc: desc(42, ""),
    };
    assert_eq!(Monitor::wants_name(&foreign), None);
    assert_eq!(Monitor::wants_name(&Msg::Success), None);
}

fn update(provider: u32, desc: Option<FlowDesc>) -> Msg {
    Msg::SrcUpdate {
        srcref: 1,
        provider,
        counts: Counts::default(),
        desc,
    }
}

#[test]
fn unnamed_updates_take_the_executables_name() {
    let unnamed = || update(NSTAT_PROVIDER_UDP_USERLAND, Some(desc(42, "")));
    assert_eq!(Monitor::wants_name(&unnamed()), Some(42));
    let mut m = Monitor::new(60);
    m.apply(unnamed(), Some("curl".to_string()));
    assert_eq!(m.engine().flows_for(42)[0].pname, "curl");
    m.tick(SECOND);
    assert_eq!(m.engine().rows()[0].name, "curl");

    // a name that the kernel gives is kept
    let named = || update(NSTAT_PROVIDER_UDP_USERLAND, Some(desc(42, "mdns")));
    assert_eq!(Monitor::wants_name(&named()), None);
    m.apply(named(), Some("curl".to_string()));
    assert_eq!(m.engine().flows_for(42)[0].pname, "mdns");

    // without a lookup the process goes by its pid
    let mut m = Monitor::new(60);
    m.apply(unnamed(), None);
    m.tick(SECOND);
    assert_eq!(m.engine().rows()[0].name, "pid 42");

    assert_eq!(Monitor::wants_name(&update(99, Some(desc(42, "")))), None);
    assert_eq!(Monitor::wants_name(&update(NSTAT_PROVIDER_TCP_KERNEL, None)), None);
}

#[test]
fn foreign_providers_are_left_out() {
    assert_eq!(proto_of(2), Some(Proto::Tcp));
    assert_eq!(proto_of(3), Some(Proto::Tcp));
    assert_eq!(proto_of(4), Some(Proto::Udp));
    assert_eq!(proto_of(5), Some(Proto::Udp));
    assert_eq!(proto_of(6), None);
    let mut m = Monitor::new(60);
    m.apply(added(1, 99), None);
    m.apply(
        Msg::SrcDesc {
            srcref: 1,
            provider: 99,
            desc: desc(42, "x"),
        },
        None,
    );
    assert_eq!(m.engine().flow_count(), 0);
    // a description is asked for all the same
    assert!(m.pump_desc_requests(0).is_some());
    // an update counts as TCP
    m.apply(
        Msg::SrcUpdate {
            srcref: 2,
            provider: 99,
            counts: Counts::default(),
            desc: Some(desc(7, "y")),
        },
        None,
    );
    assert_eq!(m.engine().flows_for(7)[0].proto, Proto::Tcp);
}

#[test]
fn kernel_errors_but_for_backpressure() {
    let mut m = Monitor::new(60);
    m.apply(Msg::Error { code: ENOBUFS }, None);
    assert_eq!(m.last_error(), None);
    m.apply(Msg::Error { code: 13 }, None);
    m.apply(Msg::Error { code: ENOBUFS }, None);
    m.apply(Msg::Success, None);
    m.apply(Msg::Other { msg_type: 10005 }, None);
    assert_eq!(m.last_error(), Some(13));
}

#[test]
fn executable_names() {
    assert_eq!(exe_name(b"/usr/bin/curl"), Some("curl".to_string()));
    assert_eq!(exe_name(b"curl"), Some("curl".to_string()));
    assert_eq!(exe_name(b"/usr/bin/"), None);
    assert_eq!(exe_name(b""), None);
    assert_eq!(exe_name(b"/a/b\xff"), Some("b\u{fffd}".to_string()));
    assert_eq!(file_name("/Applications/é"), Some("é".to_string()));
}

fn frame(msg_type: u32, body: &[u8]) -> Vec<u8> {
    let mut m = vec![0u8; 8];
    m.extend_from_slice(&msg_type.to_le_bytes());
    m.extend_from_slice(&(16 + body.len() as u16).to_le_bytes());
    m.extend_from_slice(&[0, 0]);
    m.extend_from_slice(body);
    m
}

/// A SRC_DESC of a TCP flow without a process name.
fn unnamed_desc(srcref: u64, pid: u32) -> Vec<u8> {
    let mut body = vec![0u8; 24 + 260];
    body[0..8].copy_from_slice(&srcref.to_le_bytes());
    body[16..20].copy_from_slice(&NSTAT_PROVIDER_TCP_KERNEL.to_le_bytes());
    body[24 + 116..24 + 120].copy_from_slice(&pid.to_le_bytes());
    body[24 + 152] = 16;
    body[24 + 153] = 2;
    body[24 + 154..24 + 160].copy_from_slice(&[1, 187, 9, 9, 9, 9]);
    frame(10003, &body)
}

#[test]
fn datagrams_fold_into_the_state() {
    let mut counts = vec![0u8; 128];
    counts[0] = 7;
    counts[24..32].copy_from_slice(&500u64.to_le_bytes());
    let mut dg = unnamed_desc(7, 42);
    dg.extend(frame(10004, &counts));
    dg.extend(frame(1, &13u32.to_le_bytes()));

    let mut whole = Monitor::new(60);
    whole.ingest(&dg, |pid| Some(format!("exe{pid}")));
    let mut parts = Monitor::new(60);
    parts.ingest(&unnamed_desc(7, 42), |pid| Some(format!("exe{pid}")));
    parts.ingest(&frame(10004, &counts), |_| None);
    parts.ingest(&frame(1, &13u32.to_le_bytes()), |_| None);
    for m in [&mut whole, &mut parts] {
        m.tick(SECOND);
        let row = &m.engine().rows()[0];
        assert_eq!((row.pid, row.name.as_str(), row.rx_total), (42, "exe42", 500));
        assert_eq!(m.engine().flows_for(42)[0].remote.unwrap().port, 443);
        assert_eq!(m.last_error(), Some(13));
    }

    // a process that cannot be looked up goes by its pid
    let mut m = Monitor::new(60);
    m.ingest(&unnamed_desc(7, 42), |_| None);
    m.tick(SECOND);
    assert_eq!(m.engine().rows()[0].name, "pid 42");
}
