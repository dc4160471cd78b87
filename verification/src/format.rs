//! Formatting helpers: human-readable byte rates / totals, TCP state names, and
//! sparklines for table cells.

use vstd::prelude::*;

use crate::text;

verus! {

/// `n / d` rounded to the nearest integer, halves to the even neighbour.
pub open spec fn nearest(n: nat, d: nat) -> nat {
    if 2 * (n % d) < d {
        n / d
    } else if 2 * (n % d) > d {
        n / d + 1
    } else {
        n / d + (n / d) % 2
    }
}

/// The distance between neighbouring double-precision numbers at `n`: one unit
/// in the last of 53 significant bits, and no less than 1.
pub open spec fn ulp(n: nat) -> nat
    decreases n,
{
    if n < 0x20_0000_0000_0000 {
        1
    } else {
        2 * ulp(n / 2)
    }
}

/// `n` as a double-precision number: itself while 53 bits hold it, else the
/// nearest multiple of the unit, halves to the even neighbour.
pub open spec fn as_double(n: nat) -> nat {
    if n < 0x20_0000_0000_0000 {
        n
    } else {
        nearest(n, ulp(n)) * ulp(n)
    }
}

/// How often `v` is divided by 1024 before it is shown: until it is below 1024,
/// at most five times.
pub open spec fn unit(v: nat) -> nat {
    if v < 0x400 {
        0
    } else if v < 0x10_0000 {
        1
    } else if v < 0x4000_0000 {
        2
    } else if v < 0x100_0000_0000 {
        3
    } else if v < 0x4_0000_0000_0000 {
        4
    } else {
        5
    }
}

/// 1024 to the power of `u`, for the units there are.
pub open spec fn scale(u: nat) -> nat {
    if u == 0 {
        1
    } else if u == 1 {
        0x400
    } else if u == 2 {
        0x10_0000
    } else if u == 3 {
        0x4000_0000
    } else if u == 4 {
        0x100_0000_0000
    } else {
        0x4_0000_0000_0000
    }
}

/// The name of a unit, with the space before it.
pub open spec fn unit_name(u: nat) -> Seq<char> {
    if u == 0 {
        " B"@
    } else if u == 1 {
        " KB"@
    } else if u == 2 {
        " MB"@
    } else if u == 3 {
        " GB"@
    } else if u == 4 {
        " TB"@
    } else {
        " PB"@
    }
}

/// A number of tenths, with one decimal.
pub open spec fn tenths(t: nat) -> Seq<char> {
    text::decimal(t / 10) + "."@ + text::decimal(t % 10)
}

/// A byte count for people: whole below 1024, else in the largest unit that
/// leaves at least 1, with one decimal below 10 and none above.
pub open spec fn byte_text(n: nat) -> Seq<char> {
    if n < 1024 {
        text::decimal(n) + " B"@
    } else {
        let v = as_double(n);
        let d = scale(unit(v));
        let number = if v < 10 * d {
            tenths(nearest(10 * v, d))
        } else {
            text::decimal(nearest(v, d))
        };
        number + unit_name(unit(v))
    }
}

/// `n / d` rounded to the nearest integer, halves to the even neighbour.
pub fn round_half_even(n: u128, d: u128) -> (r: u128)
    requires
        0 < d <= 0x80_0000_0000_0000_0000_0000_0000_0000,
        n < 0x80_0000_0000_0000_0000_0000_0000_0000,
    ensures
        r == nearest(n as nat, d as nat),
        r <= n / d + 1,
{
    let q: u128 = n / d;
    let rest: u128 = n % d;
    assert(q <= n) by (nonlinear_arith)
        requires
            q == n / d,
            d > 0,
    ;
    if 2 * rest < d {
        q
    } else if 2 * rest > d {
        q + 1
    } else {
        q + q % 2
    }
}

fn to_double(n: u64) -> (r: u128)
    ensures
        r == as_double(n as nat),
        n <= r + 0x800,
        r <= n + 0x800,
        n < 0x20_0000_0000_0000 ==> r == n,
{
    let mut m: u64 = n;
    let mut u: u64 = 1;
    let ghost whole = ulp(n as nat);
    while m >= 0x20_0000_0000_0000
        invariant
            whole == ulp(n as nat),
            whole == u * ulp(m as nat),
            1 <= u,
            u * m <= n,
            n < 0x20_0000_0000_0000 ==> m == n && u == 1,
        decreases m,
    {
        let ghost (m0, u0) = (m as int, u as int);
        proof {
            let half = ulp((m / 2) as nat);
            assert(u * (2 * half) == (2 * u) * half) by (nonlinear_arith);
            assert(2 * u0 * (m0 / 2) <= u0 * m0) by (nonlinear_arith)
                requires
                    0 <= m0,
                    0 <= u0,
            ;
            assert(u0 < 0x800) by (nonlinear_arith)
                requires
                    u0 * m0 <= 0xffff_ffff_ffff_ffff,
                    m0 >= 0x20_0000_0000_0000,
                    u0 >= 1,
            ;
        }
        m = m / 2;
        u = 2 * u;
        assert(u * m <= n);
    }
    proof {
        assert(u * 1 == u) by (nonlinear_arith);
        assert(ulp(m as nat) == 1);
        assert(u == whole);
        lemma_ulp_bound(n as nat);
    }
    let q: u128 = round_half_even(n as u128, u as u128);
    proof {
        lemma_nearest_close(n as nat, u as nat);
        let (a, b) = (q as int, u as int);
        assert(a * b <= n + 0x800);
        if u == 1 {
            assert(a * b == a) by (nonlinear_arith)
                requires
                    b == 1,
            ;
        }
    }
    q * (u as u128)
}

proof fn lemma_double_positive(n: nat)
    requires
        0 < n,
    ensures
        0 < as_double(n),
{
    lemma_ulp_range(n);
    if n >= 0x20_0000_0000_0000 {
        lemma_nearest_at_least(n, ulp(n), 0x10_0000_0000_0000);
        assert(nearest(n, ulp(n)) * ulp(n) > 0) by (nonlinear_arith)
            requires
                nearest(n, ulp(n)) > 0,
                ulp(n) > 0,
        ;
    }
}

/// A number has at most 53 bits in its unit, and just 53 if the unit is not 1.
proof fn lemma_ulp_range(n: nat)
    ensures
        1 <= ulp(n),
        n < 0x20_0000_0000_0000 * ulp(n),
        ulp(n) > 1 ==> 0x10_0000_0000_0000 * ulp(n) <= n,
        n < 0x20_0000_0000_0000 <==> ulp(n) == 1,
    decreases n,
{
    if n >= 0x20_0000_0000_0000 {
        lemma_ulp_range(n / 2);
    }
}

proof fn lemma_ulp_monotone(n: nat, m: nat)
    requires
        n <= m,
    ensures
        ulp(n) == ulp(m) || 2 * ulp(n) <= ulp(m),
    decreases m,
{
    lemma_ulp_range(m);
    if n >= 0x20_0000_0000_0000 {
        lemma_ulp_monotone(n / 2, m / 2);
    } else if m >= 0x20_0000_0000_0000 {
        lemma_ulp_range(m / 2);
    }
}

proof fn lemma_nearest_at_least(n: nat, d: nat, k: nat)
    requires
        0 < d,
        k * d <= n,
    ensures
        k <= nearest(n, d),
{
    vstd::arithmetic::div_mod::lemma_fundamental_div_mod(n as int, d as int);
    let q = n / d;
    assert(k <= q) by (nonlinear_arith)
        requires
            k * d <= n,
            n == d * q + n % d,
            0 <= n % d < d,
    ;
}

proof fn lemma_nearest_at_most(n: nat, d: nat, k: nat)
    requires
        0 < d,
        n <= k * d,
    ensures
        nearest(n, d) <= k,
{
    vstd::arithmetic::div_mod::lemma_fundamental_div_mod(n as int, d as int);
    let q = n / d;
    assert(q < k || (q == k && n % d == 0)) by (nonlinear_arith)
        requires
            n <= k * d,
            n == d * q + n % d,
            0 <= n % d < d,
    ;
    assert(q % 2 == 0 || q % 2 == 1);
}

proof fn lemma_nearest_monotone(n: nat, m: nat, d: nat)
    requires
        0 < d,
        n <= m,
    ensures
        nearest(n, d) <= nearest(m, d),
{
    vstd::arithmetic::div_mod::lemma_fundamental_div_mod(n as int, d as int);
    vstd::arithmetic::div_mod::lemma_fundamental_div_mod(m as int, d as int);
    let (p, q) = (n / d, m / d);
    assert(p < q || (p == q && n % d <= m % d)) by (nonlinear_arith)
        requires
            n <= m,
            n == d * p + n % d,
            m == d * q + m % d,
            0 <= n % d < d,
            0 <= m % d < d,
    ;
    assert(p % 2 == 0 || p % 2 == 1);
}

/// Rounding to double precision keeps the order.
proof fn lemma_double_monotone(n: nat, m: nat)
    requires
        n <= m,
    ensures
        as_double(n) <= as_double(m),
{
    lemma_ulp_range(n);
    lemma_ulp_range(m);
    lemma_ulp_monotone(n, m);
    let (u, w) = (ulp(n), ulp(m));
    let (p, q) = (nearest(n, u), nearest(m, w));
    lemma_nearest_close(n, u);
    lemma_nearest_close(m, w);
    assert(as_double(n) == p * u && as_double(m) == q * w) by {
        assert(u == 1 ==> p * u == p) by (nonlinear_arith);
        assert(w == 1 ==> q * w == q) by (nonlinear_arith);
    }
    if u == w {
        lemma_nearest_monotone(n, m, u);
        assert(p * u <= q * w) by (nonlinear_arith)
            requires
                p <= q,
                u == w,
        ;
    } else {
        lemma_nearest_at_most(n, u, 0x20_0000_0000_0000);
        lemma_nearest_at_least(m, w, 0x10_0000_0000_0000);
        assert(p * u <= q * w) by (nonlinear_arith)
            requires
                p <= 0x20_0000_0000_0000,
                0x10_0000_0000_0000 <= q,
                2 * u <= w,
        ;
    }
}

proof fn lemma_ulp_bound(n: nat)
    requires
        n <= 0xffff_ffff_ffff_ffff,
    ensures
        1 <= ulp(n) <= 0x800,
{
    reveal_with_fuel(ulp, 13);
}

proof fn lemma_nearest_close(n: nat, d: nat)
    requires
        0 < d,
    ensures
        nearest(n, d) * d <= n + d,
        n <= nearest(n, d) * d + d,
        d == 1 ==> nearest(n, d) == n,
{
    vstd::arithmetic::div_mod::lemma_fundamental_div_mod(n as int, d as int);
    let q = n / d;
    assert(q * d <= n < q * d + d) by (nonlinear_arith)
        requires
            n == d * q + n % d,
            0 <= n % d < d,
    ;
    assert((q + 1) * d == q * d + d) by (nonlinear_arith);
    assert(q % 2 == 0 || q % 2 == 1);
    assert(d == 1 ==> n / d == n && n % d == 0);
}

fn unit_index(v: u128) -> (r: usize)
    ensures
        r == unit(v as nat),
{
    if v < 0x400 {
        0
    } else if v < 0x10_0000 {
        1
    } else if v < 0x4000_0000 {
        2
    } else if v < 0x100_0000_0000 {
        3
    } else if v < 0x4_0000_0000_0000 {
        4
    } else {
        5
    }
}

fn unit_scale(u: usize) -> (r: u128)
    ensures
        r == scale(u as nat),
        1 <= r <= 0x4_0000_0000_0000,
{
    if u == 0 {
        1
    } else if u == 1 {
        0x400
    } else if u == 2 {
        0x10_0000
    } else if u == 3 {
        0x4000_0000
    } else if u == 4 {
        0x100_0000_0000
    } else {
        0x4_0000_0000_0000
    }
}

fn unit_suffix(u: usize) -> (r: &'static str)
    ensures
        r@ == unit_name(u as nat),
{
    if u == 0 {
        " B"
    } else if u == 1 {
        " KB"
    } else if u == 2 {
        " MB"
    } else if u == 3 {
        " GB"
    } else if u == 4 {
        " TB"
    } else {
        " PB"
    }
}

/// Format a cumulative byte total as `"1.2 MB"` (1024-based).
pub fn bytes(n: u64) -> (r: String)
    ensures
        r@ == byte_text(n as nat),
{
    let mut r: String = String::new();
    if n < 1024 {
        text::push_decimal(&mut r, n as u128);
        r.append(" B");
        assert(r@ =~= byte_text(n as nat));
        return r;
    }
    let v: u128 = to_double(n);
    let u: usize = unit_index(v);
    let d: u128 = unit_scale(u);
    // one decimal below 10, none above — keeps the field narrow
    if v < 10 * d {
        let t: u128 = round_half_even(10 * v, d);
        text::push_decimal(&mut r, t / 10);
        r.append(".");
        text::push_decimal(&mut r, t % 10);
    } else {
        text::push_decimal(&mut r, round_half_even(v, d));
    }
    r.append(unit_suffix(u));
    assert(r@ =~= byte_text(n as nat));
    r
}

/// A throughput in bytes/sec: a byte count, nothing below 0 and nothing above
/// the largest `u64`, with `/s` after it.
pub open spec fn rate_text(bytes_per_sec: int) -> Seq<char> {
    byte_text(
        if bytes_per_sec < 0 {
            0
        } else if bytes_per_sec > u64::MAX {
            u64::MAX as nat
        } else {
            bytes_per_sec as nat
        },
    ) + "/s"@
}

/// Format a throughput in bytes/sec as a compact `"1.2 MB/s"` style string
/// (1024-based units, what `nettop` and most monitors show).
pub fn rate(bytes_per_sec: i128) -> (r: String)
    ensures
        r@ == rate_text(bytes_per_sec as int),
{
    let n: u64 = if bytes_per_sec < 0 {
        0
    } else if bytes_per_sec > 0xffff_ffff_ffff_ffff {
        0xffff_ffff_ffff_ffff
    } else {
        bytes_per_sec as u64
    };
    let mut r: String = bytes(n);
    r.append("/s");
    r
}

/// The BSD TCP FSM name of a state.
pub open spec fn state_name(state: u32) -> Seq<char> {
    if state == 0 {
        "CLOSED"@
    } else if state == 1 {
        "LISTEN"@
    } else if state == 2 {
        "SYN_SENT"@
    } else if state == 3 {
        "SYN_RCVD"@
    } else if state == 4 {
        "ESTABLISHED"@
    } else if state == 5 {
        "CLOSE_WAIT"@
    } else if state == 6 {
        "FIN_WAIT_1"@
    } else if state == 7 {
        "CLOSING"@
    } else if state == 8 {
        "LAST_ACK"@
    } else if state == 9 {
        "FIN_WAIT_2"@
    } else if state == 10 {
        "TIME_WAIT"@
    } else {
        "—"@
    }
}

/// `nstat_tcp_descriptor.state` → the BSD TCP FSM name (`netinet/tcp_fsm.h`).
pub fn tcp_state(state: u32) -> (r: &'static str)
    ensures
        r@ == state_name(state),
{
    match state {
        0 => "CLOSED",
        1 => "LISTEN",
        2 => "SYN_SENT",
        3 => "SYN_RCVD",
        4 => "ESTABLISHED",
        5 => "CLOSE_WAIT",
        6 => "FIN_WAIT_1",
        7 => "CLOSING",
        8 => "LAST_ACK",
        9 => "FIN_WAIT_2",
        10 => "TIME_WAIT",
        _ => "—",
    }
}

/// The largest of the samples, 0 if there are none.
pub open spec fn peak(s: Seq<u64>) -> u64
    decreases s.len(),
{
    if s.len() == 0 {
        0
    } else if s.last() > peak(s.drop_last()) {
        s.last()
    } else {
        peak(s.drop_last())
    }
}

/// The power of two in whose fractions a double-precision number gives `n / d`:
/// the least that leaves 53 significant bits before the point. For a quotient
/// above 0 and below two to the power of 53.
pub open spec fn fineness(n: nat, d: nat) -> nat
    decreases 0x20_0000_0000_0000 * d - n,
{
    if n == 0 || n >= 0x10_0000_0000_0000 * d {
        1
    } else {
        2 * fineness(2 * n, d)
    }
}

/// The step from 0 to 7 that `v` reaches where `max` reaches the last: seven
/// times their quotient, computed in double precision and rounded, halves up.
pub open spec fn step(v: u64, max: u64) -> nat {
    if v == 0 {
        0
    } else {
        let (n, d) = (as_double(v as nat), as_double(max as nat));
        let one = fineness(n, d);
        let quotient = nearest(n * one, d);
        let height = as_double(7 * quotient);
        let rounded = (2 * height + one) / (2 * one);
        if rounded < 7 {
            rounded
        } else {
            7
        }
    }
}

/// The block that stands for `v` where the tallest stands for `max`: the eighths
/// from `▁` to `█`.
pub open spec fn bar(v: u64, max: u64) -> char {
    if max == 0 {
        '▁'
    } else {
        (0x2581 + step(v, max)) as char
    }
}

/// The newest `width` samples.
pub open spec fn newest(s: Seq<u64>, width: nat) -> Seq<u64> {
    if s.len() <= width {
        s
    } else {
        s.skip(s.len() - width)
    }
}

/// The sparkline of `samples`: one block for each of the newest `width`, scaled
/// to their own peak, with spaces before them up to `width` columns.
pub open spec fn spark_text(samples: Seq<u64>, width: nat) -> Seq<char> {
    let shown = newest(samples, width);
    text::repeat(' ', (width - shown.len()) as nat) + shown.map_values(
        |v: u64| bar(v, peak(shown)),
    )
}

proof fn lemma_peak_bounds(s: Seq<u64>, i: int)
    requires
        0 <= i < s.len(),
    ensures
        s[i] <= peak(s),
    decreases s.len(),
{
    if i < s.len() - 1 {
        lemma_peak_bounds(s.drop_last(), i);
    }
}

fn step_of(v: u64, max: u64) -> (r: u128)
    requires
        v <= max,
        max > 0,
    ensures
        r == step(v, max),
{
    if v == 0 {
        return 0;
    }
    let n: u128 = to_double(v);
    let d: u128 = to_double(max);
    proof {
        lemma_double_positive(v as nat);
        lemma_double_positive(max as nat);
    }
    let top: u128 = 0x10_0000_0000_0000 * d;
    let mut scaled: u128 = n;
    let mut one: u128 = 1;
    while scaled < top
        invariant
            0 < n <= scaled,
            0 < d <= 0x1_0000_0000_0000_0800,
            top == 0x10_0000_0000_0000 * d,
            scaled < 2 * top,
            scaled == n * one,
            1 <= one <= scaled,
            fineness(n as nat, d as nat) == one * fineness(scaled as nat, d as nat),
        decreases 2 * top - scaled,
    {
        proof {
            let rest = fineness((2 * scaled) as nat, d as nat);
            assert(one * (2 * rest) == (2 * one) * rest) by (nonlinear_arith);
            assert(2 * (n * one) == n * (2 * one)) by (nonlinear_arith);
        }
        scaled = 2 * scaled;
        one = 2 * one;
    }
    assert(one * 1 == one) by (nonlinear_arith);
    let quotient: u128 = round_half_even(scaled, d);
    assert(scaled / d < 0x20_0000_0000_0000) by (nonlinear_arith)
        requires
            scaled < 0x20_0000_0000_0000 * d,
            d > 0,
    ;
    let height: u128 = to_double((7 * quotient) as u64);
    let rounded: u128 = (2 * height + one) / (2 * one);
    if rounded < 7 {
        rounded
    } else {
        7
    }
}

fn bar_char(v: u64, max: u64) -> (c: char)
    requires
        v <= max,
    ensures
        c == bar(v, max),
{
    if max == 0 {
        return '▁';
    }
    let i: u128 = step_of(v, max);
    if i == 0 {
        '▁'
    } else if i == 1 {
        '▂'
    } else if i == 2 {
        '▃'
    } else if i == 3 {
        '▄'
    } else if i == 4 {
        '▅'
    } else if i == 5 {
        '▆'
    } else if i == 6 {
        '▇'
    } else {
        '█'
    }
}

/// Render `samples` as a right-aligned Unicode block sparkline `width` columns
/// wide, scaled to the window's own max. The newest sample sits at the right
/// edge; a short history is left-padded with spaces.
pub fn spark(samples: &[u64], width: usize) -> (r: String)
    ensures
        r@ == spark_text(samples@, width as nat),
{
    let len: usize = samples.len();
    let start: usize = len.saturating_sub(width);
    let ghost shown = newest(samples@, width as nat);
    assert(shown =~= samples@.skip(start as int));
    let mut max: u64 = 0;
    let mut i: usize = start;
    assert(shown.take(0) =~= seq![]);
    while i < len
        invariant
            start <= i <= len == samples@.len(),
            shown == samples@.skip(start as int),
            max == peak(shown.take(i - start)),
        decreases len - i,
    {
        assert(shown.take(i - start + 1).drop_last() =~= shown.take(i - start));
        if samples[i] > max {
            max = samples[i];
        }
        i += 1;
    }
    assert(shown.take(shown.len() as int) =~= shown);
    let mut r: String = String::new();
    text::push_repeat(&mut r, ' ', width - (len - start));
    let ghost pad = r@;
    let ghost blocks = shown.map_values(|v: u64| bar(v, peak(shown)));
    assert(pad =~= text::repeat(' ', (width - shown.len()) as nat));
    let mut j: usize = start;
    assert(pad + blocks.take(0) =~= pad);
    while j < len
        invariant
            start <= j <= len == samples@.len(),
            shown == samples@.skip(start as int),
            max == peak(shown),
            blocks == shown.map_values(|v: u64| bar(v, peak(shown))),
            r@ == pad + blocks.take(j - start),
        decreases len - j,
    {
        proof {
            lemma_peak_bounds(shown, j - start);
        }
        r.push(bar_char(samples[j], max));
        assert(r@ =~= pad + blocks.take(j - start + 1));
        j += 1;
    }
    assert(blocks.take(blocks.len() as int) =~= blocks);
    r
}

// ---- laws ------------------------------------------------------------------

/// A sparkline is just as wide as it was asked to be.
pub proof fn law_spark_fills_its_width(samples: Seq<u64>, width: nat)
    ensures
        spark_text(samples, width).len() == width,
{
}

/// A taller sample never gets a lower block, and the peak gets the full one.
pub proof fn law_bars_follow_the_samples(v: u64, w: u64, max: u64)
    requires
        v <= w <= max,
    ensures
        '▁' <= bar(v, max) <= bar(w, max) <= '█',
        max > 0 ==> bar(max, max) == '█',
{
    if v > 0 {
        lemma_step_monotone(v, w, max);
    }
    if max > 0 {
        lemma_step_of_peak(max);
    }
}

proof fn lemma_fineness_range(n: nat, d: nat)
    requires
        0 < n < 0x20_0000_0000_0000 * d,
    ensures
        1 <= fineness(n, d),
        0x10_0000_0000_0000 * d <= n * fineness(n, d) < 0x20_0000_0000_0000 * d,
    decreases 0x20_0000_0000_0000 * d - n,
{
    if n < 0x10_0000_0000_0000 * d {
        lemma_fineness_range(2 * n, d);
        let rest = fineness(2 * n, d);
        assert((2 * n) * rest == n * (2 * rest)) by (nonlinear_arith);
    } else {
        assert(n * 1 == n) by (nonlinear_arith);
    }
}

proof fn lemma_fineness_monotone(n: nat, m: nat, d: nat)
    requires
        0 < n <= m < 0x20_0000_0000_0000 * d,
    ensures
        fineness(n, d) == fineness(m, d) || fineness(n, d) >= 2 * fineness(m, d),
    decreases 0x20_0000_0000_0000 * d - n,
{
    if m < 0x10_0000_0000_0000 * d {
        lemma_fineness_monotone(2 * n, 2 * m, d);
    } else if n < 0x10_0000_0000_0000 * d {
        lemma_fineness_range(2 * n, d);
    }
}

/// What the quotient and its multiple come to before they are rounded to a step.
proof fn lemma_height_range(n: nat, d: nat)
    requires
        0 < n < 0x20_0000_0000_0000 * d,
    ensures
        0x10_0000_0000_0000 <= nearest(n * fineness(n, d), d) <= 0x20_0000_0000_0000,
        7 * 0x10_0000_0000_0000 <= as_double(7 * nearest(n * fineness(n, d), d)) <= 7
            * 0x20_0000_0000_0000,
{
    lemma_fineness_range(n, d);
    let scaled = n * fineness(n, d);
    lemma_nearest_at_least(scaled, d, 0x10_0000_0000_0000);
    lemma_nearest_at_most(scaled, d, 0x20_0000_0000_0000);
    let q = nearest(scaled, d);
    lemma_double_monotone(7 * 0x10_0000_0000_0000, 7 * q);
    lemma_double_monotone(7 * q, 7 * 0x20_0000_0000_0000);
    let (low, high) = (0x70_0000_0000_0000nat, 0xe0_0000_0000_0000nat);
    reveal_with_fuel(ulp, 5);
    assert(ulp(low) == 4 && ulp(high) == 8);
    lemma_nearest_at_least(low, 4, low / 4);
    lemma_nearest_at_most(low, 4, low / 4);
    lemma_nearest_at_least(high, 8, high / 8);
    lemma_nearest_at_most(high, 8, high / 8);
    assert(as_double(low) == low && as_double(high) == high);
}

proof fn lemma_doubles_in_order(v: u64, max: u64)
    requires
        0 < v <= max,
    ensures
        0 < as_double(v as nat) <= as_double(max as nat),
{
    lemma_double_positive(v as nat);
    lemma_double_monotone(v as nat, max as nat);
}

proof fn lemma_step_monotone(v: u64, w: u64, max: u64)
    requires
        0 < v <= w <= max,
    ensures
        step(v, max) <= step(w, max),
{
    lemma_doubles_in_order(v, w);
    lemma_doubles_in_order(w, max);
    let (n, m, d) = (as_double(v as nat), as_double(w as nat), as_double(max as nat));
    let (f, g) = (fineness(n, d), fineness(m, d));
    let (p, q) = (nearest(n * f, d), nearest(m * g, d));
    let (x, y) = (as_double(7 * p), as_double(7 * q));
    lemma_fineness_range(n, d);
    lemma_fineness_range(m, d);
    lemma_fineness_monotone(n, m, d);
    lemma_height_range(n, d);
    lemma_height_range(m, d);
    assert(x * g <= y * f) by {
        if f == g {
            assert(n * f <= m * g) by (nonlinear_arith)
                requires
                    n <= m,
                    f == g,
            ;
            lemma_nearest_monotone(n * f, m * g, d);
            lemma_double_monotone(7 * p, 7 * q);
            assert(x * g <= y * f) by (nonlinear_arith)
                requires
                    x <= y,
                    f == g,
            ;
        } else {
            assert(x * g <= y * f) by (nonlinear_arith)
                requires
                    x <= 7 * 0x20_0000_0000_0000,
                    7 * 0x10_0000_0000_0000 <= y,
                    2 * g <= f,
            ;
        }
    }
    lemma_halves_up_monotone(x, f, y, g);
}

proof fn lemma_halves_up_monotone(x: nat, f: nat, y: nat, g: nat)
    requires
        0 < f,
        0 < g,
        x * g <= y * f,
    ensures
        (2 * x + f) / (2 * f) <= (2 * y + g) / (2 * g),
{
    let (i, j) = ((2 * x + f) / (2 * f), (2 * y + g) / (2 * g));
    vstd::arithmetic::div_mod::lemma_fundamental_div_mod((2 * x + f) as int, (2 * f) as int);
    vstd::arithmetic::div_mod::lemma_fundamental_div_mod((2 * y + g) as int, (2 * g) as int);
    assert(2 * i * f == (2 * f) * i && 2 * (j + 1) * g == (2 * g) * j + 2 * g) by (nonlinear_arith);
    assert((2 * i * f) * g <= (2 * x + f) * g) by (nonlinear_arith)
        requires
            2 * i * f <= 2 * x + f,
    ;
    assert((2 * y + g) * f < (2 * (j + 1) * g) * f) by (nonlinear_arith)
        requires
            2 * y + g < 2 * (j + 1) * g,
            0 < f,
    ;
    assert((2 * x + f) * g <= (2 * y + g) * f) by (nonlinear_arith)
        requires
            x * g <= y * f,
    ;
    assert(i < j + 1) by (nonlinear_arith)
        requires
            (2 * i * f) * g < (2 * (j + 1) * g) * f,
            0 < f,
            0 < g,
    ;
}

proof fn lemma_step_of_peak(max: u64)
    requires
        0 < max,
    ensures
        step(max, max) == 7,
{
    lemma_doubles_in_order(max, max);
    let d = as_double(max as nat);
    let one = fineness(d, d);
    lemma_fineness_range(d, d);
    assert(one >= 0x10_0000_0000_0000) by (nonlinear_arith)
        requires
            0x10_0000_0000_0000 * d <= d * one,
            d > 0,
    ;
    assert(one < 0x20_0000_0000_0000) by (nonlinear_arith)
        requires
            d * one < 0x20_0000_0000_0000 * d,
    ;
    assert(d * one == one * d) by (nonlinear_arith);
    lemma_nearest_at_least(d * one, d, one);
    lemma_nearest_at_most(d * one, d, one);
    let height = as_double(7 * one);
    lemma_ulp_bound(7 * one);
    lemma_nearest_close(7 * one, ulp(7 * one));
    assert(7 * one <= height + 0x800);
    assert((2 * height + one) / (2 * one) >= 7) by (nonlinear_arith)
        requires
            2 * height + one >= 14 * one,
            one > 0,
    ;
}

/// A number below ten to the power of `k` has at most `k` digits.
proof fn lemma_decimal_len(n: nat, k: nat)
    requires
        1 <= k <= 5,
        k == 1 ==> n < 10,
        k == 2 ==> n < 100,
        k == 3 ==> n < 1000,
        k == 4 ==> n < 10000,
        k == 5 ==> n < 100000,
    ensures
        1 <= text::decimal(n).len() <= k,
    decreases k,
{
    if n >= 10 {
        lemma_decimal_len(n / 10, (k - 1) as nat);
    }
}

/// A byte count takes at most eight characters and a rate at most ten, so they
/// fit their columns whatever the numbers.
pub proof fn law_numbers_fit_their_columns(n: u64, bytes_per_sec: int)
    ensures
        byte_text(n as nat).len() <= 8,
        rate_text(bytes_per_sec).len() <= 10,
{
    lemma_byte_text_len(n);
    let m: u64 = if bytes_per_sec < 0 {
        0
    } else if bytes_per_sec > u64::MAX {
        u64::MAX
    } else {
        bytes_per_sec as u64
    };
    lemma_byte_text_len(m);
    reveal_strlit("/s");
}

proof fn lemma_byte_text_len(n: u64)
    ensures
        byte_text(n as nat).len() <= 8,
{
    reveal_strlit(" B");
    reveal_strlit(" KB");
    reveal_strlit(" MB");
    reveal_strlit(" GB");
    reveal_strlit(" TB");
    reveal_strlit(" PB");
    reveal_strlit(".");
    if n < 1024 {
        lemma_decimal_len(n as nat, 4);
    } else {
        lemma_ulp_bound(n as nat);
        lemma_nearest_close(n as nat, ulp(n as nat));
        let v = as_double(n as nat);
        let d = scale(unit(v));
        assert(v <= n + 0x800);
        if v < 10 * d {
            let t = nearest(10 * v, d);
            lemma_nearest_close(10 * v, d);
            assert(t <= 100) by (nonlinear_arith)
                requires
                    t * d <= 10 * v + d,
                    10 * v < 100 * d,
                    d > 0,
            ;
            lemma_decimal_len(t / 10, 2);
            lemma_decimal_len(t % 10, 1);
        } else {
            let t = nearest(v, d);
            lemma_nearest_close(v, d);
            if unit(v) < 5 {
                assert(v < 1024 * d);
                assert(t <= 1024) by (nonlinear_arith)
                    requires
                        t * d <= v + d,
                        v < 1024 * d,
                        d > 0,
                ;
                lemma_decimal_len(t, 4);
            } else {
                assert(v <= 16385 * d);
                assert(t <= 16386) by (nonlinear_arith)
                    requires
                        t * d <= v + d,
                        v <= 16385 * d,
                        d > 0,
                ;
                lemma_decimal_len(t, 5);
            }
        }
    }
}

proof fn lemma_nearest_half(n: nat, d: nat)
    requires
        0 < d,
    ensures
        -d <= 2 * (nearest(n, d) * d - n) <= d,
{
    vstd::arithmetic::div_mod::lemma_fundamental_div_mod(n as int, d as int);
    let (q, rest) = (n / d, n % d);
    assert(q % 2 == 0 || q % 2 == 1);
    assert(q * d == n - rest && (q + 1) * d == n - rest + d) by (nonlinear_arith)
        requires
            n == d * q + rest,
    ;
}

/// A number as a double-precision one is itself while 53 bits hold it, and beyond
/// that at most half a unit off.
pub proof fn law_doubles_are_near(n: u64)
    ensures
        n <= 0x20_0000_0000_0000 ==> as_double(n as nat) == n,
        -0x400 <= as_double(n as nat) - n <= 0x400,
{
    lemma_ulp_bound(n as nat);
    lemma_nearest_half(n as nat, ulp(n as nat));
    if n == 0x20_0000_0000_0000 {
        reveal_with_fuel(ulp, 3);
        assert(ulp(n as nat) == 2);
        lemma_nearest_at_least(n as nat, 2, n as nat / 2);
        lemma_nearest_at_most(n as nat, 2, n as nat / 2);
    }
}

/// A byte count below 1024 is shown as it is.
pub proof fn law_few_bytes_are_exact(n: nat)
    requires
        n < 1024,
    ensures
        byte_text(n) == text::decimal(n) + seq![' ', 'B'],
{
    reveal_strlit(" B");
    assert(" B"@ =~= seq![' ', 'B']);
}

/// A larger byte count is shown in the largest unit of 1024 that leaves at least
/// one, to the nearest tenth below ten of them and to the nearest whole above:
/// never more than half a step off.
pub proof fn law_bytes_are_shown_to_the_nearest(n: nat, d: nat, name: char)
    requires
        n < 0x20_0000_0000_0000,
        d <= n,
        (d == 0x400 && name == 'K' && n < 0x10_0000) || (d == 0x10_0000 && name == 'M' && n
            < 0x4000_0000) || (d == 0x4000_0000 && name == 'G' && n < 0x100_0000_0000) || (d
            == 0x100_0000_0000 && name == 'T' && n < 0x4_0000_0000_0000) || (d
            == 0x4_0000_0000_0000 && name == 'P'),
    ensures
        n < 10 * d ==> exists|t: nat|
            -d <= 2 * (t * d - 10 * n) <= d && byte_text(n) == text::decimal(t / 10) + seq!['.']
                + (#[trigger] text::decimal(t % 10)) + seq![' ', name, 'B'],
        n >= 10 * d ==> exists|t: nat|
            -d <= 2 * (t * d - n) <= d && byte_text(n) == (#[trigger] text::decimal(t)) + seq![
                ' ',
                name,
                'B',
            ],
{
    reveal_strlit(" KB");
    reveal_strlit(" MB");
    reveal_strlit(" GB");
    reveal_strlit(" TB");
    reveal_strlit(" PB");
    reveal_strlit(".");
    assert("."@ =~= seq!['.']);
    assert(unit_name(unit(n)) =~= seq![' ', name, 'B']);
    assert(scale(unit(n)) == d);
    lemma_nearest_half(10 * n, d);
    lemma_nearest_half(n, d);
    let (t, w) = (nearest(10 * n, d), nearest(n, d));
    if n < 10 * d {
        assert(byte_text(n) == text::decimal(t / 10) + seq!['.'] + text::decimal(t % 10) + seq![
            ' ',
            name,
            'B',
        ]);
    } else {
        assert(byte_text(n) == text::decimal(w) + seq![' ', name, 'B']);
    }
}

/// A rate is a byte count per second; none is below nothing.
pub proof fn law_rate_is_bytes_per_second(bytes_per_sec: int)
    ensures
        bytes_per_sec < 0 ==> rate_text(bytes_per_sec) == byte_text(0) + seq!['/', 's'],
        0 <= bytes_per_sec <= u64::MAX ==> rate_text(bytes_per_sec) == byte_text(
            bytes_per_sec as nat,
        ) + seq!['/', 's'],
        bytes_per_sec > u64::MAX ==> rate_text(bytes_per_sec) == byte_text(u64::MAX as nat) + seq![
            '/',
            's',
        ],
{
    reveal_strlit("/s");
    assert("/s"@ =~= seq!['/', 's']);
}

/// The peak is one of the samples, and none is above it.
pub proof fn law_peak_is_the_largest(s: Seq<u64>)
    ensures
        forall|i: int| 0 <= i < s.len() ==> #[trigger] s[i] <= peak(s),
        s.len() > 0 ==> s.contains(peak(s)),
        s.len() == 0 ==> peak(s) == 0,
    decreases s.len(),
{
    if s.len() > 0 {
        let front = s.drop_last();
        law_peak_is_the_largest(front);
        assert forall|i: int| 0 <= i < s.len() implies #[trigger] s[i] <= peak(s) by {
            if i < front.len() {
                assert(front[i] == s[i]);
            }
        }
        if s.last() > peak(front) {
            assert(s[s.len() - 1] == peak(s));
        } else if front.len() > 0 {
            let i = choose|i: int| 0 <= i < front.len() && front[i] == peak(front);
            assert(s[i] == peak(s));
        } else {
            assert(s[0] == peak(s));
        }
    }
}

/// A sparkline ends with the newest sample, and goes back one sample a column;
/// columns before the oldest are blank. The blocks go by the peak of what is
/// shown.
pub proof fn law_spark_ends_with_the_newest(samples: Seq<u64>, width: nat, back: int)
    requires
        0 <= back < width,
    ensures
        ({
            let shown = if samples.len() < width {
                samples
            } else {
                samples.subrange(samples.len() - width, samples.len() as int)
            };
            let column = spark_text(samples, width)[width - 1 - back];
            &&& back < samples.len() ==> column == bar(
                samples[samples.len() - 1 - back],
                peak(shown),
            )
            &&& back >= samples.len() ==> column == ' '
        }),
{
    let shown = newest(samples, width);
    if samples.len() >= width {
        assert(shown =~= samples.subrange(samples.len() - width, samples.len() as int));
    }
}

/// Without any traffic every block is the lowest.
pub proof fn law_idle_bars_are_low(v: u64, max: u64)
    requires
        max == 0 || v == 0,
    ensures
        bar(v, max) == '▁',
{
}

/// A block is the nearest of the eight to the sample's share of the peak: seven
/// steps times that share, never more than half a step off.
pub proof fn law_bars_are_to_scale(v: u64, max: u64)
    requires
        v <= max,
        0 < max < 0x8000_0000_0000,
    ensures
        exists|s: int|
            0 <= s <= 7 && #[trigger] (s * max) <= 7 * max && -max <= 2 * (s * max - 7 * v) <= max
                && bar(v, max) as int == 0x2581 + s,
{
    let s = step(v, max) as int;
    let (n, d) = (v as int, max as int);
    if v == 0 {
        assert(s * d == 0) by (nonlinear_arith)
            requires
                s == 0,
        ;
    } else {
        lemma_step_scale(v, max);
    }
    assert(s * d <= 7 * d) by (nonlinear_arith)
        requires
            s <= 7,
            d > 0,
    ;
}

proof fn lemma_step_scale(v: u64, max: u64)
    requires
        0 < v <= max < 0x8000_0000_0000,
    ensures
        -max <= 2 * (step(v, max) * max - 7 * v) <= max,
{
    let (n, d) = (v as int, max as int);
    let one = fineness(v as nat, max as nat) as int;
    lemma_fineness_range(v as nat, max as nat);
    assert(one >= 0x10_0000_0000_0000) by (nonlinear_arith)
        requires
            0x10_0000_0000_0000 * d <= n * one,
            n <= d,
            d > 0,
            one > 0,
    ;
    let q = nearest((n * one) as nat, d as nat) as int;
    lemma_nearest_half((n * one) as nat, d as nat);
    assert(n * one <= one * d) by (nonlinear_arith)
        requires
            n <= d,
            one > 0,
    ;
    lemma_nearest_at_most((n * one) as nat, d as nat, one as nat);
    let t = as_double((7 * q) as nat) as int;
    let u = ulp((7 * q) as nat) as int;
    lemma_height_range(v as nat, max as nat);
    lemma_ulp_range((7 * q) as nat);
    assert(u <= 14);
    lemma_nearest_half((7 * q) as nat, u as nat);
    assert(-14 <= 2 * (t - 7 * q) <= 14);
    let s = (2 * t + one) / (2 * one);
    vstd::arithmetic::div_mod::lemma_fundamental_div_mod(2 * t + one, 2 * one);
    assert(2 * one * s <= 2 * t + one < 2 * one * s + 2 * one);
    assert(s <= 7) by (nonlinear_arith)
        requires
            2 * one * s <= 2 * t + one,
            2 * t <= 14 * one + 14,
            one > 100,
    ;
    assert(0 <= s) by (nonlinear_arith)
        requires
            2 * t + one < 2 * one * s + 2 * one,
            t >= 0,
            one > 0,
    ;
    assert(s == step(v, max));
    assert(2 * (s * d - 7 * n) <= d) by (nonlinear_arith)
        requires
            2 * one * s <= 2 * t + one,
            2 * t <= 14 * q + 14,
            2 * (q * d) <= 2 * (n * one) + d,
            one > 21 * d,
            d > 0,
    {
        assert((2 * one * s) * d <= (14 * q + 14 + one) * d);
        assert((14 * q + 14 + one) * d == 14 * (q * d) + (14 + one) * d);
        assert(one * (2 * (s * d - 7 * n) - d) == (2 * one * s) * d - 14 * (n * one) - one * d);
        assert(one * (2 * (s * d - 7 * n) - d) <= 21 * d);
    }
    assert(-d <= 2 * (s * d - 7 * n)) by (nonlinear_arith)
        requires
            2 * t + one < 2 * one * s + 2 * one,
            14 * q - 14 <= 2 * t,
            2 * (n * one) - d <= 2 * (q * d),
            one > 21 * d,
            d > 0,
    {
        assert((2 * one * s) * d >= (14 * q - 14 - one) * d);
        assert((14 * q - 14 - one) * d == 14 * (q * d) - (14 + one) * d);
        assert(one * (2 * (s * d - 7 * n) + d) == (2 * one * s) * d - 14 * (n * one) + one * d);
        assert(one * (2 * (s * d - 7 * n) + d) >= -21 * d);
    }
}

/// The states of TCP have their names, and any other number has none.
pub proof fn law_state_names(state: u32)
    ensures
        state_name(0) == "CLOSED"@ && state_name(1) == "LISTEN"@,
        state_name(2) == "SYN_SENT"@ && state_name(3) == "SYN_RCVD"@,
        state_name(4) == "ESTABLISHED"@ && state_name(5) == "CLOSE_WAIT"@,
        state_name(6) == "FIN_WAIT_1"@ && state_name(7) == "CLOSING"@,
        state_name(8) == "LAST_ACK"@ && state_name(9) == "FIN_WAIT_2"@,
        state_name(10) == "TIME_WAIT"@,
        state > 10 ==> state_name(state) == "—"@,
{
}

/// The largest byte counts, beyond what 53 bits hold, are shown in PB, no more
/// than half a step and the rounding to double precision off.
pub proof fn law_huge_byte_counts(n: u64)
    requires
        n >= 0x20_0000_0000_0000,
    ensures
        ({
            let d = 0x4_0000_0000_0000int;
            ||| exists|t: nat|
                -d - 20480 <= 2 * (t * d - 10 * n) <= d + 20480 && n < 10 * d + 0x400 && byte_text(
                    n as nat,
                ) == text::decimal(t / 10) + seq!['.'] + (#[trigger] text::decimal(t % 10)) + seq![
                    ' ',
                    'P',
                    'B',
                ]
            ||| exists|t: nat|
                -d - 2048 <= 2 * (t * d - n) <= d + 2048 && n >= 10 * d - 0x400 && byte_text(
                    n as nat,
                ) == (#[trigger] text::decimal(t)) + seq![' ', 'P', 'B']
        }),
{
    reveal_strlit(" PB");
    reveal_strlit(".");
    assert("."@ =~= seq!['.']);
    assert(" PB"@ =~= seq![' ', 'P', 'B']);
    law_doubles_are_near(n);
    let v = as_double(n as nat);
    let d: nat = 0x4_0000_0000_0000;
    lemma_nearest_half(10 * v, d);
    lemma_nearest_half(v, d);
    let (t, w) = (nearest(10 * v, d), nearest(v, d));
    if v < 10 * d {
        assert(byte_text(n as nat) == text::decimal(t / 10) + seq!['.'] + text::decimal(t % 10)
            + seq![' ', 'P', 'B']);
    } else {
        assert(byte_text(n as nat) == text::decimal(w) + seq![' ', 'P', 'B']);
    }
}

} // verus!
