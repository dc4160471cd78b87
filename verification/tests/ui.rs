//! What the screen shows.

use netpeek::app::{App, Mode};
use netpeek::model::{Flow, ProcRow, Proto, SortKey};
use netpeek::ntstat::wire::{Endpoint, IpAddr};
use netpeek::services::Services;
use netpeek::ui::{centered, detail, footer, regions, status, table, wide, Piece, Room, StatusInfo, Tone};

fn texts(pieces: &[Piece]) -> Vec<&str> {
    pieces.iter().map(|p| p.text.as_str()).collect()
}

fn row(pid: u32, name: &str, rx: u128, tx: u128) -> ProcRow {
    ProcRow {
        pid,
        name: name.to_string(),
        rx_delta: rx,
        tx_delta: tx,
        span: 1_000_000_000,
        rx_total: 1024,
        tx_total: 1024,
        conns: 3,
        rx_hist: vec![1, 2],
        tx_hist: vec![],
    }
}

fn flow(proto: Proto, remote: Option<Endpoint>) -> Flow {
    Flow {
        pid: 7,
        pname: "curl".to_string(),
        proto,
        local: None,
        remote,
        tcp_state: 4,
        rx_bytes: 0,
        tx_bytes: 0,
        prev_rx: 0,
        prev_tx: 0,
        rx_delta: 2048,
        tx_delta: 0,
        span: 1_000_000_000,
        described: true,
    }
}

#[test]
fn status_line() {
    let mut app = App::default();
    let mut info = StatusInfo {
        proc_count: 142,
        flow_count: 613,
        interval_nanos: 1_000_000_000,
        last_update: "19:44:00".to_string(),
        elevated: false,
    };
    let line = status(&app, &info);
    assert_eq!(
        texts(&line).concat(),
        "netpeek  142 procs  613 flows  sort rate↓  every 1s  [your flows]  upd 19:44:00"
    );
    assert_eq!(line[0].tone, Tone::Title);
    app.paused = true;
    app.sort = SortKey::Name;
    app.sort_desc = false;
    info.elevated = true;
    info.interval_nanos = 2_500_000_000;
    let line = status(&app, &info);
    assert_eq!(
        texts(&line).concat(),
        "netpeek  142 procs  613 flows  sort name↑  every 2s  PAUSED  [root: all procs]  upd 19:44:00"
    );
    assert_eq!(line[8].tone, Tone::Paused);
    assert_eq!(line[9].tone, Tone::Root);
}

#[test]
fn narrow_table() {
    let app = App {
        expanded: Some(2),
        selected: 9,
        ..App::default()
    };
    let t = table(&app, &[row(1, "ssh", 5000, 0), row(2, "curl", 0, 10)], 91);
    assert_eq!(t.title, " processes ");
    assert_eq!(
        texts(&t.header),
        vec!["PID", "PROCESS", "DOWN↓", "UP", "TOTAL", "CONNS"]
    );
    assert_eq!(
        texts(&t.body[0]),
        vec!["1", "▸ ssh", "4.9 KB/s", "0 B/s", "2.0 KB", "3"]
    );
    assert_eq!(texts(&t.body[1])[1], "▾ curl");
    assert_eq!(t.body[0][2].tone, Tone::Down);
    assert_eq!(t.body[0][3].tone, Tone::Dim); // idle
    assert_eq!(t.body[1][3].tone, Tone::Up);
    assert!(t.body[0][2].right);
    assert!(!t.body[0][1].right);
    assert_eq!(t.widths.len(), t.header.len());
    assert_eq!(t.selected, Some(1)); // clamped to the last row
}

#[test]
fn wide_table_has_sparklines() {
    assert!(!wide(91));
    assert!(wide(92));
    let mut app = App::default();
    app.sort = SortKey::Total;
    let t = table(&app, &[row(1, "ssh", 5000, 0)], 92);
    assert_eq!(
        texts(&t.header),
        vec!["PID", "PROCESS", "DOWN", "  ↓", "UP", "  ↑", "TOTAL↓", "CONNS"]
    );
    assert_eq!(t.body[0][3].text, "    ▅█");
    assert_eq!(t.body[0][5].text, "      ");
    assert_eq!(
        t.widths,
        vec![
            Room::Length(7),
            Room::Min(14),
            Room::Length(11),
            Room::Length(6),
            Room::Length(11),
            Room::Length(6),
            Room::Length(9),
            Room::Length(6)
        ]
    );
    assert_eq!(table(&app, &[], 92).selected, None);
}

#[test]
fn title_shows_the_filter() {
    let mut app = App::default();
    app.filter = "fox".to_string();
    assert_eq!(table(&app, &[], 80).title, " filter: fox ");
    app.mode = Mode::Filter;
    assert_eq!(table(&app, &[], 80).title, " filter: fox_ ");
    app.filter.clear();
    assert_eq!(table(&app, &[], 80).title, " filter: _ ");
}

#[test]
fn detail_pane() {
    let app = App {
        expanded: Some(7),
        ..App::default()
    };
    let ep = Endpoint {
        ip: IpAddr::V4(0x0808_0808),
        port: 443,
    };
    let flows = [
        flow(Proto::Tcp, Some(ep)),
        flow(Proto::Udp, Some(Endpoint { port: 7777, ..ep })),
        flow(Proto::Tcp, None),
    ];
    let names = vec![Some("dns.google".to_string()), None, None];
    let addresses = vec!["8.8.8.8".to_string(), "8.8.8.8".to_string(), String::new()];
    let t = detail(&app, &flows, &Services::builtin(), &names, &addresses);
    assert_eq!(t.title, " curl (pid 7) — 3 flows ");
    assert_eq!(
        texts(&t.header),
        vec!["PROTO", "STATE", "REMOTE", "DOWN", "UP"]
    );
    assert_eq!(
        texts(&t.body[0]),
        vec!["TCP", "ESTABLISHED", "dns.google:443 (https)", "2.0 KB/s", "0 B/s"]
    );
    assert_eq!(
        texts(&t.body[1]),
        vec!["UDP", "—", "8.8.8.8:7777", "2.0 KB/s", "0 B/s"]
    );
    assert_eq!(texts(&t.body[2])[2], "—");
    assert_eq!(t.selected, None);
    let none = detail(&App::default(), &[], &Services::builtin(), &vec![], &vec![]);
    assert_eq!(none.title, "  (pid 0) — 0 flows ");
}

#[test]
fn frame_regions() {
    let mut app = App::default();
    assert_eq!(
        regions(&app, 5),
        vec![Room::Length(1), Room::Min(3), Room::Length(1)]
    );
    app.expanded = Some(1);
    assert_eq!(regions(&app, 0).len(), 3);
    for (flows, height) in [(1, 5), (2, 5), (3, 6), (11, 14), (12, 14), (usize::MAX, 14)] {
        assert_eq!(
            regions(&app, flows),
            vec![
                Room::Length(1),
                Room::Min(3),
                Room::Length(height),
                Room::Length(1)
            ]
        );
    }
    assert_eq!(centered(60), (20, 60, 20));
}

#[test]
fn footer_follows_the_mode() {
    let mut app = App::default();
    assert!(footer(&app).starts_with("q quit"));
    app.mode = Mode::Filter;
    assert_eq!(footer(&app), "type to filter   enter accept   esc clear");
}
