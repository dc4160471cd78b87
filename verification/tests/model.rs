//! The aggregation engine, sorting and filtering.

use netpeek::model::{
    matches_filter, matches_lowered, sort_rows, sorted_rows, visible_rows, Engine, ProcRow, Proto,
    SortKey,
};
use netpeek::ntstat::wire::{Counts, Endpoint, FlowDesc, IpAddr};
use netpeek::rate::Rate;

/// Nanoseconds of a number of seconds.
fn secs(s: f64) -> u64 {
    (s * 1e9) as u64
}

/// Bytes per second.
fn bps(r: Rate) -> f64 {
    if r.nanos == 0 {
        0.0
    } else {
        r.bytes as f64 * 1e9 / r.nanos as f64
    }
}

fn ep(a: u8, b: u8, c: u8, d: u8, port: u16) -> Endpoint {
    Endpoint {
        ip: IpAddr::V4(u32::from_be_bytes([a, b, c, d])),
        port,
    }
}

fn desc(pid: u32, name: &str, remote_port: u16) -> FlowDesc {
    FlowDesc {
        pid,
        pname: name.to_string(),
        local: Some(ep(192, 168, 1, 2, 50000)),
        remote: Some(ep(1, 1, 1, 1, remote_port)),
        tcp_state: 4,
    }
}

fn counts(rx_bytes: u64, tx_bytes: u64) -> Counts {
    Counts { rx_bytes, tx_bytes }
}

#[test]
fn rate_is_delta_over_dt() {
    let mut e = Engine::new(8);
    e.on_added(1, Proto::Tcp);
    e.on_desc(1, Proto::Tcp, desc(100, "curl", 443));
    e.on_counts(
        1,
        Counts {
            rx_bytes: 0,
            tx_bytes: 0,
        },
    );
    e.tick(secs(1.0)); // establishes baseline at 0
    e.on_counts(
        1,
        Counts {
            rx_bytes: 10_000,
            tx_bytes: 2_000,
        },
    );
    e.tick(secs(2.0)); // 10000 over 2s = 5000 B/s down, 1000 B/s up
    let rows = e.rows();
    assert_eq!(rows.len(), 1);
    assert_eq!(rows[0].pid, 100);
    assert_eq!(bps(rows[0].rx_rate()), 5_000.0);
    assert_eq!(bps(rows[0].tx_rate()), 1_000.0);
    assert_eq!(rows[0].rx_total, 10_000);
    assert_eq!(rows[0].conns, 1);
}

#[test]
fn counter_reset_yields_zero_not_negative() {
    let mut e = Engine::new(8);
    e.on_added(1, Proto::Tcp);
    e.on_desc(1, Proto::Tcp, desc(1, "x", 80));
    e.on_counts(
        1,
        Counts {
            rx_bytes: 5_000,
            tx_bytes: 0,
        },
    );
    e.tick(secs(1.0));
    // srcref reused with a smaller cumulative value
    e.on_counts(
        1,
        Counts {
            rx_bytes: 100,
            tx_bytes: 0,
        },
    );
    e.tick(secs(1.0));
    assert_eq!(bps(e.rows()[0].rx_rate()), 0.0);
}

#[test]
fn zero_dt_is_safe() {
    let mut e = Engine::new(8);
    e.on_added(1, Proto::Tcp);
    e.on_desc(1, Proto::Tcp, desc(1, "x", 80));
    e.on_counts(
        1,
        Counts {
            rx_bytes: 5_000,
            tx_bytes: 0,
        },
    );
    e.tick(secs(0.0));
    assert_eq!(bps(e.rows()[0].rx_rate()), 0.0);
}

#[test]
fn aggregates_multiple_flows_per_pid() {
    let mut e = Engine::new(8);
    e.on_added(1, Proto::Tcp);
    e.on_added(2, Proto::Udp);
    e.on_desc(1, Proto::Tcp, desc(42, "firefox", 443));
    e.on_desc(2, Proto::Udp, desc(42, "firefox", 53));
    e.on_counts(
        1,
        Counts {
            rx_bytes: 0,
            tx_bytes: 0,
        },
    );
    e.on_counts(
        2,
        Counts {
            rx_bytes: 0,
            tx_bytes: 0,
        },
    );
    e.tick(secs(1.0));
    e.on_counts(
        1,
        Counts {
            rx_bytes: 1_000,
            tx_bytes: 0,
        },
    );
    e.on_counts(
        2,
        Counts {
            rx_bytes: 500,
            tx_bytes: 0,
        },
    );
    e.tick(secs(1.0));
    let rows = e.rows();
    assert_eq!(rows.len(), 1);
    assert_eq!(rows[0].conns, 2);
    assert_eq!(bps(rows[0].rx_rate()), 1_500.0);
    assert_eq!(e.flows_for(42).len(), 2);
}

#[test]
fn undescribed_flow_is_not_shown_until_named() {
    let mut e = Engine::new(8);
    e.on_added(1, Proto::Tcp);
    e.on_counts(
        1,
        Counts {
            rx_bytes: 1_000,
            tx_bytes: 0,
        },
    );
    e.tick(secs(1.0));
    assert!(e.rows().is_empty()); // no descriptor yet
    e.on_desc(1, Proto::Tcp, desc(7, "ssh", 22));
    e.tick(secs(1.0));
    assert_eq!(e.rows().len(), 1);
}

#[test]
fn removed_flow_disappears_and_history_pruned() {
    let mut e = Engine::new(8);
    e.on_added(1, Proto::Tcp);
    e.on_desc(1, Proto::Tcp, desc(9, "x", 80));
    e.on_counts(
        1,
        Counts {
            rx_bytes: 1,
            tx_bytes: 1,
        },
    );
    e.tick(secs(1.0));
    assert_eq!(e.rows().len(), 1);
    e.on_removed(1);
    e.tick(secs(1.0));
    assert!(e.rows().is_empty());
    assert_eq!(e.flow_count(), 0);
}

#[test]
fn total_includes_closed_flows_while_process_stays_active() {
    let mut e = Engine::new(8);
    e.on_added(1, Proto::Tcp);
    e.on_added(2, Proto::Tcp);
    e.on_desc(1, Proto::Tcp, desc(50, "x", 80));
    e.on_desc(2, Proto::Tcp, desc(50, "x", 443));
    e.on_counts(
        1,
        Counts {
            rx_bytes: 1_000,
            tx_bytes: 100,
        },
    );
    e.on_counts(
        2,
        Counts {
            rx_bytes: 2_000,
            tx_bytes: 200,
        },
    );
    e.tick(secs(1.0));
    assert_eq!(e.rows()[0].rx_total, 3_000);
    assert_eq!(e.rows()[0].tx_total, 300);
    // flow 1 closes but flow 2 is still live → TOTAL must not drop
    e.on_removed(1);
    e.tick(secs(1.0));
    let r = &e.rows()[0];
    assert_eq!(r.conns, 1); // only the live flow is counted as a connection
    assert_eq!(r.rx_total, 3_000); // 2_000 live + 1_000 carried from the closed flow
    assert_eq!(r.tx_total, 300);
}

#[test]
fn retired_carry_is_dropped_once_a_pid_has_no_flows() {
    let mut e = Engine::new(8);
    e.on_added(1, Proto::Tcp);
    e.on_desc(1, Proto::Tcp, desc(50, "x", 80));
    e.on_counts(
        1,
        Counts {
            rx_bytes: 5_000,
            tx_bytes: 0,
        },
    );
    e.tick(secs(1.0));
    e.on_removed(1);
    e.tick(secs(1.0));
    assert!(e.rows().is_empty()); // no live flows → process leaves the table
                                  // a fresh flow for the same pid starts from zero, not 5_000 (no stale carry)
    e.on_added(2, Proto::Tcp);
    e.on_desc(2, Proto::Tcp, desc(50, "x", 443));
    e.on_counts(
        2,
        Counts {
            rx_bytes: 10,
            tx_bytes: 0,
        },
    );
    e.tick(secs(1.0));
    assert_eq!(e.rows()[0].rx_total, 10);
}

#[test]
fn history_capped_at_hist_len() {
    let mut e = Engine::new(3);
    e.on_added(1, Proto::Tcp);
    e.on_desc(1, Proto::Tcp, desc(1, "x", 80));
    for i in 1..=10u64 {
        e.on_counts(
            1,
            Counts {
                rx_bytes: i * 1000,
                tx_bytes: 0,
            },
        );
        e.tick(secs(1.0));
    }
    assert!(e.rows()[0].rx_hist.len() <= 3);
}

#[test]
fn on_update_path_sets_desc_and_counts() {
    let mut e = Engine::new(8);
    e.on_update(
        5,
        Proto::Udp,
        Counts {
            rx_bytes: 0,
            tx_bytes: 0,
        },
        Some(desc(11, "mdns", 5353)),
    );
    e.tick(secs(1.0));
    e.on_update(
        5,
        Proto::Udp,
        Counts {
            rx_bytes: 800,
            tx_bytes: 0,
        },
        None,
    );
    e.tick(secs(1.0));
    assert_eq!(bps(e.rows()[0].rx_rate()), 800.0);
    assert_eq!(e.rows()[0].name, "mdns");
}

fn row(pid: u32, name: &str, rate: f64, total: u64, conns: usize) -> ProcRow {
    ProcRow {
        pid,
        name: name.to_string(),
        rx_delta: rate as u128,
        tx_delta: 0,
        span: secs(1.0),
        rx_total: total,
        tx_total: 0,
        conns,
        rx_hist: vec![],
        tx_hist: vec![],
    }
}

#[test]
fn sorting_by_each_key() {
    let mut rows = vec![
        row(3, "Zsh", 100.0, 50, 1),
        row(1, "apple", 300.0, 10, 5),
        row(2, "Brave", 200.0, 99, 2),
    ];
    sort_rows(&mut rows, SortKey::Rate, true);
    assert_eq!(
        rows.iter().map(|r| r.pid).collect::<Vec<_>>(),
        vec![1, 2, 3]
    );

    sort_rows(&mut rows, SortKey::Total, false);
    assert_eq!(
        rows.iter().map(|r| r.pid).collect::<Vec<_>>(),
        vec![1, 3, 2]
    );

    sort_rows(&mut rows, SortKey::Name, false);
    // case-insensitive: apple, Brave, Zsh
    assert_eq!(
        rows.iter().map(|r| r.pid).collect::<Vec<_>>(),
        vec![1, 2, 3]
    );

    sort_rows(&mut rows, SortKey::Conns, true);
    assert_eq!(
        rows.iter().map(|r| r.pid).collect::<Vec<_>>(),
        vec![1, 2, 3]
    );

    sort_rows(&mut rows, SortKey::Pid, false);
    assert_eq!(
        rows.iter().map(|r| r.pid).collect::<Vec<_>>(),
        vec![1, 2, 3]
    );
}

#[test]
fn tie_breaks_by_pid() {
    let mut rows = vec![row(9, "a", 0.0, 0, 0), row(2, "b", 0.0, 0, 0)];
    sort_rows(&mut rows, SortKey::Rate, true);
    assert_eq!(rows[0].pid, 2);
}

#[test]
fn filtering_by_name_and_pid() {
    let r = row(1234, "Firefox", 0.0, 0, 0);
    assert!(matches_filter(&r, ""));
    assert!(matches_filter(&r, "fire"));
    assert!(matches_filter(&r, "FOX"));
    assert!(matches_filter(&r, "123"));
    assert!(!matches_filter(&r, "chrome"));
}

#[test]
fn proto_and_sortkey_labels() {
    assert_eq!(Proto::Tcp.as_str(), "TCP");
    assert_eq!(Proto::Udp.as_str(), "UDP");
    for (k, l) in [
        (SortKey::Rate, "rate"),
        (SortKey::Total, "total"),
        (SortKey::Name, "name"),
        (SortKey::Conns, "conns"),
        (SortKey::Pid, "pid"),
    ] {
        assert_eq!(k.label(), l);
    }
    let r = row(1, "x", 1.0, 2, 1);
    assert_eq!(bps(r.total_rate()), 1.0);
    assert_eq!(r.total_bytes(), 2);
}

#[test]
fn unnamed_process_falls_back_to_pid_label() {
    let mut e = Engine::new(8);
    e.on_added(1, Proto::Tcp);
    // described, valid pid, but the kernel gave no process name
    e.on_desc(
        1,
        Proto::Tcp,
        FlowDesc {
            pid: 4242,
            pname: String::new(),
            local: None,
            remote: Some(ep(1, 1, 1, 1, 80)),
            tcp_state: 4,
        },
    );
    e.on_counts(
        1,
        Counts {
            rx_bytes: 1,
            tx_bytes: 1,
        },
    );
    e.tick(secs(1.0));
    assert_eq!(e.rows()[0].name, "pid 4242");
}

#[test]
fn flows_for_breaks_rate_ties_by_remote_port() {
    let mut e = Engine::new(8);
    // two flows, same pid, identical (zero) rate, different remote ports
    e.on_added(1, Proto::Tcp);
    e.on_added(2, Proto::Tcp);
    e.on_desc(1, Proto::Tcp, desc(50, "x", 8443));
    e.on_desc(2, Proto::Tcp, desc(50, "x", 443));
    e.tick(secs(1.0));
    let flows = e.flows_for(50);
    assert_eq!(flows.len(), 2);
    // equal rate → lower remote port first
    assert_eq!(flows[0].remote.unwrap().port, 443);
    assert_eq!(flows[1].remote.unwrap().port, 8443);
}

#[test]
fn flows_for_lists_the_busiest_first() {
    let mut e = Engine::new(8);
    for (srcref, port, rx) in [(1, 1000, 10), (2, 2000, 30), (3, 3000, 20)] {
        e.on_desc(srcref, Proto::Tcp, desc(7, "x", port));
        e.on_counts(srcref, counts(rx, 0));
    }
    e.on_desc(4, Proto::Tcp, desc(8, "y", 1));
    e.on_counts(5, counts(99, 99));
    e.tick(secs(1.0));
    let ports: Vec<u16> = e.flows_for(7).iter().map(|f| f.remote.unwrap().port).collect();
    assert_eq!(ports, vec![2000, 3000, 1000]);
    let row = e.rows().iter().find(|r| r.pid == 7).unwrap();
    assert_eq!(row.conns, 3);
    assert!(e.flows_for(9).is_empty());
    assert_eq!(e.flow_count(), 5);
}

#[test]
fn a_quiet_tick_shows_no_rate() {
    let mut e = Engine::new(8);
    e.on_desc(1, Proto::Tcp, desc(3, "x", 80));
    e.on_counts(1, counts(700, 70));
    e.tick(secs(1.0));
    assert_eq!(e.rows()[0].rx_rate().per_second(), 700);
    e.tick(secs(1.0));
    assert_eq!(e.rows()[0].rx_delta, 0);
    assert_eq!(e.rows()[0].tx_delta, 0);
    assert_eq!(e.rows()[0].rx_hist, vec![700, 0]);
    assert_eq!(e.rows()[0].tx_hist, vec![70, 0]);
}

#[test]
fn reprime_swallows_the_gap() {
    let mut e = Engine::new(8);
    e.on_desc(1, Proto::Tcp, desc(3, "x", 80));
    e.on_counts(1, counts(100, 100));
    e.tick(secs(1.0));
    e.on_counts(1, counts(9_000_000, 9_000_000));
    e.reprime();
    e.tick(secs(1.0));
    assert_eq!(e.rows()[0].rx_delta, 0);
    assert_eq!(e.rows()[0].rx_total, 9_000_000);
    // from there on rates are measured again
    e.on_counts(1, counts(9_000_500, 9_000_000));
    e.tick(secs(0.5));
    assert_eq!(bps(e.rows()[0].rx_rate()), 1_000.0);
    assert_eq!(bps(e.rows()[0].tx_rate()), 0.0);
}

#[test]
fn history_keeps_the_newest() {
    let mut e = Engine::new(2);
    e.on_desc(1, Proto::Tcp, desc(3, "x", 80));
    for i in 1..=4u64 {
        e.on_counts(1, counts(i * i * 10, 0));
        e.tick(secs(1.0));
    }
    assert_eq!(e.rows()[0].rx_hist, vec![50, 70]);
    // a length of 0 counts as 1
    let mut e = Engine::new(0);
    e.on_desc(1, Proto::Tcp, desc(3, "x", 80));
    e.tick(secs(1.0));
    e.tick(secs(1.0));
    assert_eq!(e.rows()[0].rx_hist, vec![0]);
}

#[test]
fn protocol_is_put_right_when_known() {
    let mut e = Engine::new(2);
    e.on_counts(1, counts(1, 2));
    e.on_added(1, Proto::Udp);
    e.on_desc(1, Proto::Udp, desc(3, "x", 80));
    let f = &e.flows_for(3)[0];
    assert_eq!(f.proto, Proto::Udp);
    assert_eq!((f.rx_bytes, f.tx_bytes), (1, 2));
}

#[test]
fn closing_an_unknown_or_undescribed_flow_carries_nothing() {
    let mut e = Engine::new(2);
    e.on_removed(77);
    e.on_counts(1, counts(500, 500));
    e.on_removed(1);
    e.on_desc(2, Proto::Tcp, desc(3, "x", 80));
    e.on_counts(2, counts(1, 1));
    e.tick(secs(1.0));
    assert_eq!(e.rows()[0].rx_total, 1);
}

#[test]
fn totals_saturate() {
    let mut e = Engine::new(2);
    e.on_desc(1, Proto::Tcp, desc(3, "x", 80));
    e.on_desc(2, Proto::Tcp, desc(3, "x", 81));
    e.on_counts(1, counts(u64::MAX, 1));
    e.on_counts(2, counts(5, 1));
    e.tick(secs(1.0));
    let r = &e.rows()[0];
    assert_eq!(r.rx_total, u64::MAX);
    assert_eq!(r.rx_delta, u64::MAX as u128 + 5);
    assert_eq!(r.total_bytes(), u64::MAX);
    assert_eq!(r.rx_hist, vec![u64::MAX]);
}

#[test]
fn names_sort_and_filter_beyond_ascii() {
    let mut rows = vec![row(1, "Éclair", 0.0, 0, 0), row(2, "zed", 0.0, 0, 0), row(3, "ÀB", 0.0, 0, 0)];
    sort_rows(&mut rows, SortKey::Name, false);
    assert_eq!(rows.iter().map(|r| r.pid).collect::<Vec<_>>(), vec![2, 3, 1]);
    sort_rows(&mut rows, SortKey::Name, true);
    assert_eq!(rows.iter().map(|r| r.pid).collect::<Vec<_>>(), vec![1, 3, 2]);
    assert!(matches_filter(&rows[0], "éCL"));
    assert!(!matches_filter(&rows[0], "ecl"));
}

#[test]
fn lowercase_matching() {
    assert!(matches_lowered("firefox", 12, "fox"));
    assert!(matches_lowered("firefox", 312, "12"));
    assert!(!matches_lowered("firefox", 312, "Fox"));
    assert!(!matches_lowered("fox", 3, "firefox"));
}

#[test]
fn equal_keys_keep_their_order() {
    // same key and same pid: nothing to choose by, so the order stays
    let mut rows = vec![row(5, "b", 1.0, 1, 1), row(5, "a", 1.0, 1, 1), row(4, "c", 1.0, 1, 1)];
    sort_rows(&mut rows, SortKey::Rate, true);
    assert_eq!(
        rows.iter().map(|r| r.name.as_str()).collect::<Vec<_>>(),
        vec!["c", "b", "a"]
    );
}

#[test]
fn rates_over_different_spans_compare() {
    let mut a = row(1, "a", 10.0, 0, 0);
    a.span = secs(2.0); // 5 B/s
    let b = row(2, "b", 6.0, 0, 0); // 6 B/s
    let mut c = row(3, "c", 1000.0, 0, 0);
    c.span = 0; // nothing moves in no time
    let mut rows = vec![a, b, c];
    sort_rows(&mut rows, SortKey::Rate, true);
    assert_eq!(rows.iter().map(|r| r.pid).collect::<Vec<_>>(), vec![2, 1, 3]);
}

#[test]
fn visible_rows_are_filtered_and_sorted() {
    let rows = vec![
        row(3, "curl", 5.0, 0, 0),
        row(1, "Curl-helper", 9.0, 0, 0),
        row(2, "ssh", 99.0, 0, 0),
    ];
    let out = visible_rows(&rows, "CURL", SortKey::Rate, true);
    assert_eq!(out.iter().map(|r| r.pid).collect::<Vec<_>>(), vec![1, 3]);
    assert_eq!(out[1], rows[0]);
    assert_eq!(visible_rows(&rows, "", SortKey::Pid, false).len(), 3);
    assert!(visible_rows(&rows, "nope", SortKey::Pid, false).is_empty());
}

#[test]
fn snapshot_rows_are_busiest_first() {
    let mut e = Engine::new(2);
    for (srcref, pid, rx) in [(1, 10, 5), (2, 11, 50), (3, 12, 20)] {
        e.on_desc(srcref, Proto::Tcp, desc(pid, "x", 80));
        e.on_counts(srcref, counts(rx, 0));
    }
    e.tick(secs(1.0));
    let pids: Vec<u32> = sorted_rows(&e).iter().map(|r| r.pid).collect();
    assert_eq!(pids, vec![11, 12, 10]);
}

#[test]
fn the_order_before_sorting_leaves_no_trace() {
    let names = ["b", "A", "a", "B"];
    for key in [SortKey::Rate, SortKey::Total, SortKey::Name, SortKey::Conns, SortKey::Pid] {
        for descending in [false, true] {
            let make = |pids: [u32; 4]| -> Vec<ProcRow> {
                pids.iter()
                    .map(|p| row(*p, names[*p as usize], (*p / 2) as f64, 7, 1))
                    .collect()
            };
            let mut x = make([0, 1, 2, 3]);
            let mut y = make([2, 0, 3, 1]);
            sort_rows(&mut x, key, descending);
            sort_rows(&mut y, key, descending);
            assert_eq!(x, y);
        }
    }
}

#[test]
fn a_process_shows_as_soon_as_a_flow_is_named_and_until_the_last_closes() {
    let mut e = Engine::new(4);
    e.on_desc(1, Proto::Tcp, desc(5, "x", 80));
    e.on_desc(2, Proto::Udp, desc(5, "x", 81));
    e.on_desc(3, Proto::Udp, desc(0, "kernel", 82)); // no pid, never shown
    e.tick(secs(1.0));
    assert_eq!(e.rows().len(), 1);
    assert_eq!(e.rows()[0].conns, 2);
    e.on_removed(1);
    e.tick(secs(1.0));
    assert_eq!(e.rows()[0].conns, 1);
    e.on_removed(2);
    e.tick(secs(1.0));
    assert!(e.rows().is_empty());
    // its history went with it
    e.on_desc(4, Proto::Tcp, desc(5, "x", 80));
    e.tick(secs(1.0));
    assert_eq!(e.rows()[0].rx_hist.len(), 1);
}

#[test]
fn a_process_takes_a_name_that_one_of_its_flows_carries() {
    let mut e = Engine::new(4);
    e.on_desc(1, Proto::Tcp, desc(5, "", 80));
    e.on_desc(2, Proto::Tcp, desc(5, "named", 81));
    e.on_desc(3, Proto::Tcp, desc(5, "", 82));
    e.tick(secs(1.0));
    assert_eq!(e.rows()[0].name, "named");
}

#[test]
fn totals_never_shrink_while_a_process_stays() {
    let mut e = Engine::new(4);
    e.on_desc(0, Proto::Tcp, desc(5, "x", 80)); // keeps the process in the table
    let mut last = 0;
    for i in 1..50u64 {
        let k = i % 7 + 1;
        e.on_added(k, Proto::Tcp);
        e.on_desc(k, Proto::Tcp, desc(5, "x", 443));
        e.on_counts(k, counts(i * 10, 0));
        if i % 3 == 0 {
            e.on_removed(k);
        }
        e.tick(secs(1.0));
        assert!(e.rows()[0].rx_total >= last);
        last = e.rows()[0].rx_total;
    }
    assert!(last > 0);
}
