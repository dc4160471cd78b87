//! The one-shot outputs.

use netpeek::model::ProcRow;
use netpeek::rate::Rate;
use netpeek::report::{
    clock_hms, diag_report, diag_start, json_escape, print_json, print_table, rate_string, trunc,
};

fn row(pid: u32, name: &str, rx: u128, tx: u128) -> ProcRow {
    ProcRow {
        pid,
        name: name.to_string(),
        rx_delta: rx,
        tx_delta: tx,
        span: 1_000_000_000,
        rx_total: 1_932_735_012,
        tx_total: 211_238,
        conns: 38,
        rx_hist: vec![],
        tx_hist: vec![],
    }
}

#[test]
fn json_escaping() {
    assert_eq!(json_escape("plain"), "plain");
    assert_eq!(json_escape("a\"b\\c"), "a\\\"b\\\\c");
    assert_eq!(json_escape("tab\there"), "tab\\u0009here");
}

#[test]
fn json_escaping_of_every_control_character() {
    for x in 0..0x20u8 {
        assert_eq!(
            json_escape(&(x as char).to_string()),
            format!("\\u{:04x}", x)
        );
    }
    assert_eq!(json_escape("\u{7f}é🦀"), "\u{7f}é🦀");
}

#[test]
fn truncation_helper() {
    assert_eq!(trunc("short", 10), "short");
    assert_eq!(trunc("a-very-long-process-name", 8), "a-very-…");
}

#[test]
fn truncation_edges() {
    assert_eq!(trunc("exact", 5), "exact");
    assert_eq!(trunc("exact", 1), "…");
    assert_eq!(trunc("exact", 0), "…");
    assert_eq!(trunc("", 0), "");
    assert_eq!(trunc("éééé", 3), "éé…");
}

#[test]
fn table_lines() {
    let text = print_table(&[
        row(5821, "Google Chrome Helper (Renderer)", 4_823_117, 831_488),
        row(1, "launchd", 0, 0),
    ]);
    let lines: Vec<&str> = text.lines().collect();
    assert_eq!(lines.len(), 3);
    assert_eq!(
        lines[0],
        format!(
            "{:>6}  {:<24}  {:>11}  {:>11}  {:>10}  {:>5}",
            "PID", "PROCESS", "DOWN/s", "UP/s", "TOTAL", "CONNS"
        )
    );
    assert_eq!(
        lines[1],
        format!(
            "{:>6}  {:<24}  {:>11}  {:>11}  {:>10}  {:>5}",
            5821, "Google Chrome Helper (R…", "4.6 MB/s", "812 KB/s", "1.8 GB", 38
        )
    );
    assert!(lines[2].starts_with("     1  launchd                 "));
    assert!(text.ends_with("\n"));
}

#[test]
fn empty_table_says_so() {
    let text = print_table(&[]);
    assert_eq!(
        text.lines().nth(1),
        Some("(no per-process network flows seen)")
    );
}

#[test]
fn json_objects() {
    assert_eq!(print_json(&[]), "[\n]\n");
    assert_eq!(
        print_json(&[row(5821, "Chrome \"H\"", 4_823_117, 831_488), row(1, "x", 0, 1)]),
        "[\n  {\"conns\": 38, \"name\": \"Chrome \\\"H\\\"\", \"pid\": 5821, \
         \"rx_bytes\": 1932735012, \"rx_rate\": 4823117, \"tx_bytes\": 211238, \
         \"tx_rate\": 831488},\n  {\"conns\": 38, \"name\": \"x\", \"pid\": 1, \
         \"rx_bytes\": 1932735012, \"rx_rate\": 0, \"tx_bytes\": 211238, \"tx_rate\": 1}\n]\n"
    );
}

#[test]
fn diagnostics() {
    assert_eq!(
        diag_start(None),
        "netpeek --diag\n  control socket   : connected (com.apple.network.statistics)\n"
    );
    assert_eq!(
        diag_start(Some("denied")),
        "netpeek --diag\n  control socket   : FAILED — denied\n"
    );
    assert_eq!(
        diag_report(false, 7, &[], None),
        "  privilege        : user (your flows)\n  tracked flows    : 7\n  \
         named processes  : 0\n  aggregate rate   : 0 B/s\n  last kernel error: none\n\n  \
         no per-process flows seen — generate some traffic (e.g. curl) and retry.\n"
    );
    let rows: Vec<ProcRow> = (1..=6).map(|i| row(i, "curl", 1000, 24)).collect();
    let text = diag_report(true, 12, &rows, Some(13));
    let mut want = String::from(
        "  privilege        : root (all processes)\n  tracked flows    : 12\n  \
         named processes  : 6\n  aggregate rate   : 6.0 KB/s\n  last kernel error: 13\n\n  \
         top talkers:\n",
    );
    for i in 1..=5 {
        want.push_str(&format!(
            "    {:>6}  {:<22}  ↓{:>10}  ↑{:>10}\n",
            i, "curl", "1000 B/s", "24 B/s"
        ));
    }
    assert_eq!(text, want);
}

#[test]
fn clock() {
    assert_eq!(clock_hms(0, 0, 0), "00:00:00");
    assert_eq!(clock_hms(9, 5, 60), "09:05:60");
    assert_eq!(clock_hms(23, 59, 10), "23:59:10");
}

#[test]
fn rates_as_text() {
    let r = Rate {
        bytes: 3,
        nanos: 2_000_000_000,
    };
    assert_eq!(rate_string(&r), "1 B/s");
}

#[test]
fn escaped_names_read_back() {
    let read = |s: &str| -> String {
        let mut out = String::new();
        let mut it = s.chars();
        while let Some(c) = it.next() {
            if c != '\\' {
                out.push(c);
                continue;
            }
            match it.next() {
                Some('u') => {
                    let hex: String = it.by_ref().take(4).collect();
                    out.push(u8::from_str_radix(&hex, 16).unwrap() as char);
                }
                Some(c) => out.push(c),
                None => {}
            }
        }
        out
    };
    for name in ["", "plain", "\"", "\\u0041", "a\u{0}b\u{1f}\u{1b}[31m", "\\\"\\"] {
        let text = json_escape(name);
        assert_eq!(read(&text), name);
        assert!(text.chars().all(|c| c >= ' '));
    }
}
