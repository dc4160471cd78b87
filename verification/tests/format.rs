//! Byte and rate formatting, TCP state names and sparklines.

use netpeek::format::{bytes, rate, spark, tcp_state};

#[test]
fn bytes_units() {
    assert_eq!(bytes(0), "0 B");
    assert_eq!(bytes(512), "512 B");
    assert_eq!(bytes(1023), "1023 B");
    assert_eq!(bytes(1024), "1.0 KB");
    assert_eq!(bytes(1536), "1.5 KB");
    assert_eq!(bytes(10 * 1024), "10 KB");
    assert_eq!(bytes(1024 * 1024), "1.0 MB");
    assert_eq!(bytes(5 * 1024 * 1024 * 1024), "5.0 GB");
    // huge value saturates at the top unit rather than overflowing
    assert!(bytes(u64::MAX).ends_with(" PB"));
}

#[test]
fn rate_appends_per_second() {
    assert_eq!(rate(0), "0 B/s");
    assert_eq!(rate(2048), "2.0 KB/s");
    // negative (shouldn't happen) clamps to zero
    assert_eq!(rate(-5), "0 B/s");
}

#[test]
fn tcp_states() {
    let names = [
        "CLOSED",
        "LISTEN",
        "SYN_SENT",
        "SYN_RCVD",
        "ESTABLISHED",
        "CLOSE_WAIT",
        "FIN_WAIT_1",
        "CLOSING",
        "LAST_ACK",
        "FIN_WAIT_2",
        "TIME_WAIT",
    ];
    for (state, name) in names.iter().enumerate() {
        assert_eq!(tcp_state(state as u32), *name);
    }
    assert_eq!(tcp_state(999), "—");
}

#[test]
fn sparkline() {
    assert_eq!(spark(&[], 0), "");
    // empty samples, width 4 → all padding spaces
    assert_eq!(spark(&[], 4), "    ");
    // all-zero history → flat low bars (no NaN from /0)
    assert_eq!(spark(&[0, 0, 0], 3), "▁▁▁");
    // increasing series → ascending bars, max at the right
    let s = spark(&[1, 2, 4, 8], 4);
    assert_eq!(s.chars().count(), 4);
    assert_eq!(s.chars().last(), Some('█'));
    // short history is left-padded to the requested width
    let s = spark(&[5], 4);
    assert_eq!(s.chars().count(), 4);
    assert!(s.starts_with(' '));
    // long history keeps only the most recent `width` samples
    let s = spark(&[1, 1, 1, 1, 1, 9], 2);
    assert_eq!(s.chars().count(), 2);
}

#[test]
fn bytes_agree_with_floating_point() {
    let units = ["B", "KB", "MB", "GB", "TB", "PB"];
    let by_float = |n: u64| -> String {
        if n < 1024 {
            return format!("{n} B");
        }
        let mut v = n as f64;
        let mut u = 0;
        while v >= 1024.0 && u < 5 {
            v /= 1024.0;
            u += 1;
        }
        if v < 10.0 {
            format!("{v:.1} {}", units[u])
        } else {
            format!("{v:.0} {}", units[u])
        }
    };
    let mut n: u64 = 1;
    for i in 0..4000u64 {
        n = n.wrapping_mul(6364136223846793005).wrapping_add(1442695040888963407);
        let x = n >> (i % 64);
        assert_eq!(bytes(x), by_float(x));
    }
    // ties, carries and the edges of the units
    for x in [
        1023, 1024, 1075, 1126, 1127, 1280, 10188, 10189, 10240, 10752, 11776, 1048575, 1048576,
        (1 << 53) - 1, 1 << 53, (1 << 53) + 1, (1 << 53) + 3, u64::MAX - 1024, u64::MAX - 1023,
        u64::MAX,
    ] {
        assert_eq!(bytes(x), by_float(x));
    }
    assert_eq!(bytes(u64::MAX), "16384 PB");
    assert_eq!(bytes(1048575), "1024 KB");
}

#[test]
fn rate_saturates() {
    assert_eq!(rate(i128::MAX), "16384 PB/s");
    assert_eq!(rate(1023), "1023 B/s");
}

#[test]
fn bars_agree_with_floating_point() {
    let bars = ['▁', '▂', '▃', '▄', '▅', '▆', '▇', '█'];
    for max in 1..200u64 {
        for v in 0..=max {
            let idx = ((v as f64 / max as f64) * 7.0).round() as usize;
            let s = spark(&[v, max], 2);
            assert_eq!(s.chars().next(), Some(bars[idx]));
            assert_eq!(s.chars().last(), Some('█'));
        }
    }
    let mut n: u64 = 1;
    for i in 0..20_000u64 {
        n = n.wrapping_mul(6364136223846793005).wrapping_add(1442695040888963407);
        let max = (n >> (i % 64)).max(1);
        n = n.wrapping_mul(6364136223846793005).wrapping_add(1442695040888963407);
        // anywhere below the peak, and right beside the middles between two steps
        let middle = (max as u128 * (2 * (n % 7) as u128 + 1) / 14) as u64;
        for v in [n % max, max, middle, middle.saturating_sub(1), middle.saturating_add(1).min(max)]
        {
            let idx = ((v as f64 / max as f64) * 7.0).round() as usize;
            assert_eq!(spark(&[v, max], 2).chars().next(), Some(bars[idx.min(7)]));
        }
    }
}

#[test]
fn huge_samples_are_scaled_in_double_precision() {
    assert_eq!(spark(&[1317624576693539401, u64::MAX], 2), "▂█");
    assert_eq!(spark(&[1, u64::MAX], 2), "▁█");
    assert_eq!(spark(&[u64::MAX - 1, u64::MAX], 2), "██");
}

#[test]
fn sparkline_exact() {
    assert_eq!(spark(&[0, 1, 2, 3, 4, 5, 6, 7], 10), "  ▁▂▃▄▅▆▇█");
    assert_eq!(spark(&[9, 0, 4, 8], 3), "▁▅█");
    assert_eq!(spark(&[9, 9], 0), "");
}

#[test]
fn numbers_fit_their_columns() {
    for shift in 0..64 {
        for n in [u64::MAX >> shift, (u64::MAX >> shift) / 1000 * 999, 1 << shift] {
            assert!(bytes(n).chars().count() <= 8);
            assert!(rate(n as i128).chars().count() <= 10);
        }
    }
    assert_eq!(bytes(u64::MAX).len(), 8);
}
