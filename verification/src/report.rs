//! The one-shot outputs: the `--once` table, the `--json` array and the `--diag`
//! summary, as text.

use vstd::prelude::*;

use crate::model::{one_span, row_views, ProcRow, RowView};
use crate::rate::Rate;
use crate::text;

verus! {

// ---- pieces ----------------------------------------------------------------

/// `s`, or as much of it as fits in `n` characters with an ellipsis at the end.
pub open spec fn truncated(s: Seq<char>, n: nat) -> Seq<char> {
    if s.len() <= n {
        s
    } else {
        s.take(if n == 0 { 0 } else { n - 1 }).push('…')
    }
}

/// `s`, cut to `n` characters with an ellipsis if it is longer.
pub fn trunc(s: &str, n: usize) -> (r: String)
    ensures
        r@ == truncated(s@, n as nat),
{
    let chars: Vec<char> = text::chars_of(s);
    if chars.len() <= n {
        s.to_owned()
    } else {
        let mut r: String = text::string_of(&chars, 0, n.saturating_sub(1));
        r.push('…');
        assert(r@ =~= truncated(s@, n as nat));
        r
    }
}

/// A hexadecimal digit.
pub open spec fn hex(d: int) -> char {
    if d < 10 {
        (48 + d) as char
    } else {
        (87 + d) as char
    }
}

/// A character inside a JSON string: quotes and backslashes escaped, control
/// characters by their number.
pub open spec fn escape(c: char) -> Seq<char> {
    if c == '"' {
        seq!['\\', '"']
    } else if c == '\\' {
        seq!['\\', '\\']
    } else if ' ' > c {
        seq!['\\', 'u', '0', '0', hex(c as int / 16), hex(c as int % 16)]
    } else {
        seq![c]
    }
}

/// Every character escaped.
pub open spec fn escaped(s: Seq<char>) -> Seq<char>
    decreases s.len(),
{
    if s.len() == 0 {
        seq![]
    } else {
        escape(s[0]) + escaped(s.drop_first())
    }
}

fn hex_char(d: u8) -> (c: char)
    requires
        d < 16,
    ensures
        c == hex(d as int),
{
    if d < 10 {
        (48 + d) as char
    } else {
        (87 + d) as char
    }
}

fn push_escape(out: &mut String, c: char)
    ensures
        final(out)@ == old(out)@ + escape(c),
{
    let ghost start = out@;
    if c == '"' {
        out.push('\\');
        out.push('"');
    } else if c == '\\' {
        out.push('\\');
        out.push('\\');
    } else if ' ' > c {
        let x: u32 = c as u32;
        out.push('\\');
        out.push('u');
        out.push('0');
        out.push('0');
        out.push(hex_char((x / 16) as u8));
        out.push(hex_char((x % 16) as u8));
    } else {
        out.push(c);
    }
    assert(out@ =~= start + escape(c));
}

/// `s` as it stands between the quotes of a JSON string.
pub fn json_escape(s: &str) -> (r: String)
    ensures
        r@ == escaped(s@),
{
    let chars: Vec<char> = text::chars_of(s);
    let mut out: String = String::new();
    let mut i: usize = 0;
    assert(s@.skip(0) =~= s@);
    assert(out@ + escaped(s@) =~= escaped(s@));
    while i < chars.len()
        invariant
            chars@ == s@,
            i <= chars@.len(),
            out@ + escaped(s@.skip(i as int)) == escaped(s@),
        decreases chars@.len() - i,
    {
        let ghost was = out@;
        push_escape(&mut out, chars[i]);
        assert(s@.skip(i as int).drop_first() =~= s@.skip(i + 1));
        assert(was + escaped(s@.skip(i as int)) =~= out@ + escaped(s@.skip(i + 1)));
        i += 1;
    }
    assert(out@ + escaped(s@.skip(s@.len() as int)) =~= out@);
    out
}

/// `n` with a zero before it if it has one digit.
pub open spec fn two_digits(n: nat) -> Seq<char> {
    if n < 10 {
        "0"@ + text::decimal(n)
    } else {
        text::decimal(n)
    }
}

/// A time of day as `HH:MM:SS`.
pub open spec fn clock(hour: nat, minute: nat, second: nat) -> Seq<char> {
    two_digits(hour) + ":"@ + two_digits(minute) + ":"@ + two_digits(second)
}

fn push_two_digits(out: &mut String, n: u32)
    ensures
        final(out)@ == old(out)@ + two_digits(n as nat),
{
    let ghost start = out@;
    if n < 10 {
        out.append("0");
    }
    text::push_decimal(out, n as u128);
    assert(out@ =~= start + two_digits(n as nat));
}

/// Wall-clock `HH:MM:SS`.
pub fn clock_hms(hour: u32, minute: u32, second: u32) -> (r: String)
    ensures
        r@ == clock(hour as nat, minute as nat, second as nat),
{
    let mut r: String = String::new();
    push_two_digits(&mut r, hour);
    r.append(":");
    push_two_digits(&mut r, minute);
    r.append(":");
    push_two_digits(&mut r, second);
    assert(r@ =~= clock(hour as nat, minute as nat, second as nat));
    r
}

/// The text of a rate.
pub open spec fn shown_rate(r: Rate) -> Seq<char> {
    crate::format::rate_text(r.whole() as int)
}

/// Format a rate for a cell.
pub fn rate_string(r: &Rate) -> (s: String)
    ensures
        s@ == shown_rate(*r),
{
    crate::format::rate(r.per_second() as i128)
}

// ---- the table -------------------------------------------------------------

/// A line of the table: six columns, the second to the left and the others to
/// the right.
pub open spec fn table_line(
    pid: Seq<char>,
    name: Seq<char>,
    down: Seq<char>,
    up: Seq<char>,
    total: Seq<char>,
    conns: Seq<char>,
) -> Seq<char> {
    text::right_aligned(pid, 6) + "  "@ + text::left_aligned(name, 24) + "  "@
        + text::right_aligned(down, 11) + "  "@ + text::right_aligned(up, 11) + "  "@
        + text::right_aligned(total, 10) + "  "@ + text::right_aligned(conns, 5) + "\n"@
}

/// The line of a process.
pub open spec fn row_line(r: RowView) -> Seq<char> {
    table_line(
        text::decimal(r.pid as nat),
        truncated(r.name, 24),
        shown_rate(r.rx_rate()),
        shown_rate(r.tx_rate()),
        crate::format::byte_text(r.total_bytes() as nat),
        text::decimal(r.conns as nat),
    )
}

/// The lines of the processes, in order.
pub open spec fn row_lines(rows: Seq<RowView>) -> Seq<char>
    decreases rows.len(),
{
    if rows.len() == 0 {
        seq![]
    } else {
        row_lines(rows.drop_last()) + row_line(rows.last())
    }
}

/// The whole table: a heading, a line for each process, and a remark if there is
/// none.
pub open spec fn table(rows: Seq<RowView>) -> Seq<char> {
    let heading = table_line("PID"@, "PROCESS"@, "DOWN/s"@, "UP/s"@, "TOTAL"@, "CONNS"@);
    let remark = if rows.len() == 0 {
        "(no per-process network flows seen)\n"@
    } else {
        seq![]
    };
    heading + row_lines(rows) + remark
}

fn push_table_line(
    out: &mut String,
    pid: &str,
    name: &str,
    down: &str,
    up: &str,
    total: &str,
    conns: &str,
)
    ensures
        final(out)@ == old(out)@ + table_line(pid@, name@, down@, up@, total@, conns@),
{
    let mut s: String = String::new();
    text::push_right(&mut s, pid, 6);
    assert(s@ =~= text::right_aligned(pid@, 6));
    s.append("  ");
    text::push_left(&mut s, name, 24);
    s.append("  ");
    text::push_right(&mut s, down, 11);
    s.append("  ");
    text::push_right(&mut s, up, 11);
    s.append("  ");
    text::push_right(&mut s, total, 10);
    s.append("  ");
    text::push_right(&mut s, conns, 5);
    s.append("\n");
    out.append(s.as_str());
}

/// The rows as a text table.
pub fn print_table(rows: &[ProcRow]) -> (r: String)
    ensures
        r@ == table(row_views(rows@)),
{
    let mut out: String = String::new();
    push_table_line(&mut out, "PID", "PROCESS", "DOWN/s", "UP/s", "TOTAL", "CONNS");
    let ghost head = out@;
    assert(head =~= table_line("PID"@, "PROCESS"@, "DOWN/s"@, "UP/s"@, "TOTAL"@, "CONNS"@));
    let ghost views = row_views(rows@);
    let mut i: usize = 0;
    assert(views.take(0) =~= seq![]);
    assert(head + row_lines(views.take(0)) =~= head);
    while i < rows.len()
        invariant
            views == row_views(rows@),
            i <= rows@.len(),
            out@ == head + row_lines(views.take(i as int)),
        decreases rows@.len() - i,
    {
        let row: &ProcRow = &rows[i];
        let ghost was = out@;
        push_table_line(
            &mut out,
            text::decimal_string(row.pid as u128).as_str(),
            trunc(row.name.as_str(), 24).as_str(),
            rate_string(&row.rx_rate()).as_str(),
            rate_string(&row.tx_rate()).as_str(),
            crate::format::bytes(row.total_bytes()).as_str(),
            text::decimal_string(row.conns as u128).as_str(),
        );
        proof {
            let next = views.take(i + 1);
            assert(next.drop_last() =~= views.take(i as int));
            assert(next.last() == row@);
            assert(out@ =~= head + row_lines(next));
        }
        i += 1;
    }
    assert(views.take(views.len() as int) =~= views);
    if rows.len() == 0 {
        out.append("(no per-process network flows seen)\n");
    }
    assert(out@ =~= table(views));
    out
}

// ---- JSON ------------------------------------------------------------------

/// A rate as JSON has it: to the nearest byte per second.
pub open spec fn json_rate(r: Rate) -> Seq<char> {
    text::decimal(
        if r.nearest() <= u128::MAX {
            r.nearest()
        } else {
            u128::MAX as nat
        },
    )
}

/// The JSON object of a process, keys in alphabetical order.
pub open spec fn json_object(r: RowView) -> Seq<char> {
    "  {\"conns\": "@ + text::decimal(r.conns as nat) + ", \"name\": \""@ + escaped(r.name)
        + "\", \"pid\": "@ + text::decimal(r.pid as nat) + ", \"rx_bytes\": "@ + text::decimal(
        r.rx_total as nat,
    ) + ", \"rx_rate\": "@ + json_rate(r.rx_rate()) + ", \"tx_bytes\": "@ + text::decimal(
        r.tx_total as nat,
    ) + ", \"tx_rate\": "@ + json_rate(r.tx_rate()) + "}"@
}

/// The objects of the processes, a line each, with commas between them.
pub open spec fn json_lines(rows: Seq<RowView>, shown: nat) -> Seq<char>
    decreases shown,
{
    if shown == 0 {
        seq![]
    } else {
        json_lines(rows, (shown - 1) as nat) + json_object(rows[shown - 1]) + (if shown
            < rows.len() {
            ","@
        } else {
            seq![]
        }) + "\n"@
    }
}

/// The JSON array of the processes.
pub open spec fn json_array(rows: Seq<RowView>) -> Seq<char> {
    "[\n"@ + json_lines(rows, rows.len()) + "]\n"@
}

fn push_json_object(out: &mut String, row: &ProcRow)
    ensures
        final(out)@ == old(out)@ + json_object(row@),
{
    let mut s: String = "  {\"conns\": ".to_owned();
    text::push_decimal(&mut s, row.conns as u128);
    s.append(", \"name\": \"");
    s.append(json_escape(row.name.as_str()).as_str());
    s.append("\", \"pid\": ");
    text::push_decimal(&mut s, row.pid as u128);
    s.append(", \"rx_bytes\": ");
    text::push_decimal(&mut s, row.rx_total as u128);
    s.append(", \"rx_rate\": ");
    text::push_decimal(&mut s, row.rx_rate().rounded());
    s.append(", \"tx_bytes\": ");
    text::push_decimal(&mut s, row.tx_total as u128);
    s.append(", \"tx_rate\": ");
    text::push_decimal(&mut s, row.tx_rate().rounded());
    s.append("}");
    out.append(s.as_str());
}

/// The rows as a JSON array (keys alphabetised).
pub fn print_json(rows: &[ProcRow]) -> (r: String)
    ensures
        r@ == json_array(row_views(rows@)),
{
    let mut out: String = "[\n".to_owned();
    let ghost views = row_views(rows@);
    let ghost head = out@;
    let len: usize = rows.len();
    let mut i: usize = 0;
    assert(head + json_lines(views, 0) =~= head);
    while i < len
        invariant
            views == row_views(rows@),
            i <= len == rows@.len(),
            out@ == head + json_lines(views, i as nat),
        decreases len - i,
    {
        push_json_object(&mut out, &rows[i]);
        if i + 1 < len {
            out.append(",");
        }
        out.append("\n");
        assert(out@ =~= head + json_lines(views, (i + 1) as nat));
        i += 1;
    }
    out.append("]\n");
    assert(out@ =~= json_array(views));
    out
}

// ---- diagnostics -----------------------------------------------------------

/// The bytes that all processes moved over the tick, down and up.
pub open spec fn moved(rows: Seq<RowView>) -> nat
    decreases rows.len(),
{
    if rows.len() == 0 {
        0
    } else {
        moved(rows.drop_last()) + rows.last().rx_delta as nat + rows.last().tx_delta as nat
    }
}

/// The combined throughput of all processes.
pub open spec fn aggregate_rate(rows: Seq<RowView>) -> Rate {
    Rate {
        bytes: if moved(rows) <= u128::MAX {
            moved(rows) as u128
        } else {
            u128::MAX
        },
        nanos: if rows.len() == 0 {
            0
        } else {
            rows[0].span
        },
    }
}

/// The line of one of the busiest processes.
pub open spec fn talker_line(r: RowView) -> Seq<char> {
    "    "@ + text::right_aligned(text::decimal(r.pid as nat), 6) + "  "@ + text::left_aligned(
        truncated(r.name, 22),
        22,
    ) + "  ↓"@ + text::right_aligned(shown_rate(r.rx_rate()), 10) + "  ↑"@
        + text::right_aligned(shown_rate(r.tx_rate()), 10) + "\n"@
}

/// The lines of the first `n` processes.
pub open spec fn talker_lines(rows: Seq<RowView>, n: nat) -> Seq<char>
    decreases n,
{
    if n == 0 {
        seq![]
    } else {
        talker_lines(rows, (n - 1) as nat) + talker_line(rows[n - 1])
    }
}

/// What `--diag` says once it has a snapshot: privilege, counts, the aggregate
/// rate, the last kernel error and the five busiest processes.
pub open spec fn diagnosis(
    elevated: bool,
    flows: nat,
    rows: Seq<RowView>,
    last_error: Option<u32>,
) -> Seq<char> {
    "  privilege        : "@ + (if elevated {
        "root (all processes)"@
    } else {
        "user (your flows)"@
    }) + "\n  tracked flows    : "@ + text::decimal(flows) + "\n  named processes  : "@
        + text::decimal(rows.len()) + "\n  aggregate rate   : "@ + shown_rate(aggregate_rate(rows))
        + "\n  last kernel error: "@ + (match last_error {
        Some(code) => text::decimal(code as nat),
        None => "none"@,
    }) + "\n"@ + if rows.len() == 0 {
        "\n  no per-process flows seen — generate some traffic (e.g. curl) and retry.\n"@
    } else {
        "\n  top talkers:\n"@ + talker_lines(
            rows,
            if rows.len() < 5 {
                rows.len()
            } else {
                5
            },
        )
    }
}

/// How `--diag` opens: whether the control socket could be connected, and the
/// error if not.
pub open spec fn diag_opening(error: Option<Seq<char>>) -> Seq<char> {
    "netpeek --diag\n  control socket   : "@ + (match error {
        None => "connected (com.apple.network.statistics)"@,
        Some(e) => "FAILED — "@ + e,
    }) + "\n"@
}

/// The first lines of `--diag`.
pub fn diag_start(error: Option<&str>) -> (r: String)
    ensures
        r@ == diag_opening(
            match error {
                None => None,
                Some(e) => Some(e@),
            },
        ),
{
    let mut out: String = "netpeek --diag\n  control socket   : ".to_owned();
    match error {
        None => out.append("connected (com.apple.network.statistics)"),
        Some(e) => {
            out.append("FAILED — ");
            out.append(e);
        },
    }
    out.append("\n");
    assert(out@ =~= diag_opening(
        match error {
            None => None,
            Some(e) => Some(e@),
        },
    ));
    out
}

fn total_moved(rows: &[ProcRow]) -> (r: u128)
    ensures
        r == if moved(row_views(rows@)) <= u128::MAX {
            moved(row_views(rows@))
        } else {
            u128::MAX as nat
        },
{
    let ghost views = row_views(rows@);
    let mut total: u128 = 0;
    let mut i: usize = 0;
    assert(views.take(0) =~= seq![]);
    while i < rows.len()
        invariant
            views == row_views(rows@),
            i <= rows@.len(),
            total == if moved(views.take(i as int)) <= u128::MAX {
                moved(views.take(i as int))
            } else {
                u128::MAX as nat
            },
        decreases rows@.len() - i,
    {
        proof {
            let next = views.take(i + 1);
            assert(next.drop_last() =~= views.take(i as int));
            assert(next.last() == rows@[i as int]@);
        }
        total = total.saturating_add(rows[i].rx_delta).saturating_add(rows[i].tx_delta);
        i += 1;
    }
    assert(views.take(views.len() as int) =~= views);
    total
}

fn push_talker(out: &mut String, row: &ProcRow)
    ensures
        final(out)@ == old(out)@ + talker_line(row@),
{
    let mut s: String = "    ".to_owned();
    text::push_right(&mut s, text::decimal_string(row.pid as u128).as_str(), 6);
    s.append("  ");
    text::push_left(&mut s, trunc(row.name.as_str(), 22).as_str(), 22);
    s.append("  ↓");
    text::push_right(&mut s, rate_string(&row.rx_rate()).as_str(), 10);
    s.append("  ↑");
    text::push_right(&mut s, rate_string(&row.tx_rate()).as_str(), 10);
    s.append("\n");
    out.append(s.as_str());
}

/// The summary of a snapshot for `--diag`.
pub fn diag_report(
    elevated: bool,
    flows: usize,
    rows: &[ProcRow],
    last_error: Option<u32>,
) -> (r: String)
    requires
        one_span(row_views(rows@)),
    ensures
        r@ == diagnosis(elevated, flows as nat, row_views(rows@), last_error),
{
    let ghost views = row_views(rows@);
    let mut out: String = "  privilege        : ".to_owned();
    if elevated {
        out.append("root (all processes)");
    } else {
        out.append("user (your flows)");
    }
    out.append("\n  tracked flows    : ");
    text::push_decimal(&mut out, flows as u128);
    out.append("\n  named processes  : ");
    text::push_decimal(&mut out, rows.len() as u128);
    out.append("\n  aggregate rate   : ");
    let total = Rate {
        bytes: total_moved(rows),
        nanos: if rows.len() == 0 { 0 } else { rows[0].span },
    };
    assert(total == aggregate_rate(views));
    out.append(rate_string(&total).as_str());
    out.append("\n  last kernel error: ");
    match last_error {
        Some(code) => text::push_decimal(&mut out, code as u128),
        None => out.append("none"),
    }
    out.append("\n");
    if rows.len() == 0 {
        out.append(
            "\n  no per-process flows seen — generate some traffic (e.g. curl) and retry.\n",
        );
    } else {
        out.append("\n  top talkers:\n");
        let ghost head = out@;
        let n: usize = if rows.len() < 5 { rows.len() } else { 5 };
        let mut i: usize = 0;
        assert(head + talker_lines(views, 0) =~= head);
        while i < n
            invariant
                views == row_views(rows@),
                i <= n <= rows@.len(),
                out@ == head + talker_lines(views, i as nat),
            decreases n - i,
        {
            push_talker(&mut out, &rows[i]);
            assert(out@ =~= head + talker_lines(views, (i + 1) as nat));
            i += 1;
        }
    }
    assert(out@ =~= diagnosis(elevated, flows as nat, views, last_error));
    out
}

// ---- laws ------------------------------------------------------------------

/// The number a hexadecimal digit stands for.
pub open spec fn unhex(c: char) -> int {
    if c <= '9' {
        c as int - 48
    } else {
        c as int - 87
    }
}

/// What a JSON reader makes of the inside of a string.
pub open spec fn unescaped(s: Seq<char>) -> Seq<char>
    decreases s.len(),
{
    if s.len() == 0 {
        seq![]
    } else if s[0] != '\\' || s.len() == 1 {
        seq![s[0]] + unescaped(s.drop_first())
    } else if s[1] != 'u' || s.len() < 6 {
        seq![s[1]] + unescaped(s.skip(2))
    } else {
        let x = 4096 * unhex(s[2]) + 256 * unhex(s[3]) + 16 * unhex(s[4]) + unhex(s[5]);
        seq![x as char] + unescaped(s.skip(6))
    }
}

proof fn lemma_escape(c: char)
    ensures
        forall|i: int| 0 <= i < escape(c).len() ==> (#[trigger] escape(c)[i]) >= ' ',
        forall|i: int|
            0 <= i < escape(c).len() && (#[trigger] escape(c)[i]) == '"' ==> i > 0 && escape(c)[i
                - 1] == '\\',
        ' ' > c ==> escape(c).len() == 6 && 16 * unhex(escape(c)[4]) + unhex(escape(c)[5]) == c as int
            && unhex(escape(c)[2]) == 0 && unhex(escape(c)[3]) == 0 && (c as int) as char == c,
{
}

/// A JSON reader gets back the name that was written.
pub proof fn law_json_strings_read_back(s: Seq<char>)
    ensures
        unescaped(escaped(s)) == s,
    decreases s.len(),
{
    if s.len() > 0 {
        let c = s[0];
        let rest = escaped(s.drop_first());
        let all = escaped(s);
        law_json_strings_read_back(s.drop_first());
        lemma_escape(c);
        assert(s =~= seq![c] + s.drop_first());
        if c == '"' || c == '\\' {
            assert(all.skip(2) =~= rest);
        } else if ' ' > c {
            assert(all.skip(6) =~= rest);
            assert(all.take(6) =~= escape(c));
        } else {
            assert(all.drop_first() =~= rest);
        }
    }
}

/// What is written into a JSON string holds no control character, and no quote
/// that a backslash does not stand before.
pub proof fn law_json_strings_are_clean(s: Seq<char>)
    ensures
        forall|i: int|
            0 <= i < escaped(s).len() ==> (#[trigger] escaped(s)[i]) >= ' ',
        forall|i: int|
            0 <= i < escaped(s).len() && (#[trigger] escaped(s)[i]) == '"' ==> i > 0
                && escaped(s)[i - 1] == '\\',
    decreases s.len(),
{
    if s.len() > 0 {
        law_json_strings_are_clean(s.drop_first());
        lemma_escape(s[0]);
        let first = escape(s[0]);
        let rest = escaped(s.drop_first());
        let all = escaped(s);
        assert forall|i: int| 0 <= i < all.len() implies (#[trigger] all[i]) >= ' ' by {
            if i >= first.len() {
                assert(all[i] == rest[i - first.len()]);
            } else {
                assert(all[i] == first[i]);
            }
        }
        assert forall|i: int| 0 <= i < all.len() && (#[trigger] all[i]) == '"' implies i > 0
            && all[i - 1] == '\\' by {
            if i >= first.len() {
                assert(all[i] == rest[i - first.len()]);
                assert(all[i - 1] == rest[i - first.len() - 1]);
            } else {
                assert(all[i] == first[i]);
                assert(all[i - 1] == first[i - 1]);
            }
        }
    }
}

/// A name that is cut never takes more columns than it was given, if it was
/// given any.
pub proof fn law_truncated_names_fit(s: Seq<char>, n: nat)
    requires
        n > 0,
    ensures
        truncated(s, n).len() <= n,
        s.len() <= n ==> truncated(s, n) == s,
{
}

/// The texts one after the other.
pub open spec fn joined(s: Seq<Seq<char>>) -> Seq<char>
    decreases s.len(),
{
    if s.len() == 0 {
        seq![]
    } else {
        joined(s.drop_last()) + s.last()
    }
}

/// Whether `n` is what `bytes` over `nanos` come to in a second, to the nearest:
/// no more than half of one off.
pub open spec fn nearest_per_second(n: nat, bytes: u128, nanos: u64) -> bool {
    if nanos == 0 {
        n == 0
    } else if bytes * 1_000_000_000 <= u128::MAX * nanos {
        -nanos <= 2 * (n * nanos - bytes * 1_000_000_000) <= nanos
    } else {
        n == u128::MAX
    }
}

/// The JSON object of a process gives its numbers under their own keys: bytes and
/// connections as they are, and rates in bytes per second, each direction's own,
/// no more than half a byte per second off.
pub proof fn law_json_gives_bytes_per_second(r: RowView)
    ensures
        exists|rx: nat, tx: nat|
            {
                &&& nearest_per_second(rx, r.rx_delta, r.span)
                &&& nearest_per_second(tx, r.tx_delta, r.span)
                &&& json_object(r) == "  {\"conns\": "@ + text::decimal(r.conns as nat)
                    + ", \"name\": \""@ + escaped(r.name) + "\", \"pid\": "@ + text::decimal(
                    r.pid as nat,
                ) + ", \"rx_bytes\": "@ + text::decimal(r.rx_total as nat) + ", \"rx_rate\": "@
                    + #[trigger] text::decimal(rx) + ", \"tx_bytes\": "@ + text::decimal(
                    r.tx_total as nat,
                ) + ", \"tx_rate\": "@ + #[trigger] text::decimal(tx) + "}"@
            },
{
    let rx = lemma_json_rate(Rate { bytes: r.rx_delta, nanos: r.span });
    let tx = lemma_json_rate(Rate { bytes: r.tx_delta, nanos: r.span });
    assert(json_rate(r.rx_rate()) == text::decimal(rx));
    assert(json_rate(r.tx_rate()) == text::decimal(tx));
}

proof fn lemma_json_rate(r: Rate) -> (n: nat)
    ensures
        nearest_per_second(n, r.bytes, r.nanos),
        json_rate(r) == text::decimal(n),
{
    crate::rate::law_nearest_is_half_a_byte_off(r);
    let n: nat = if r.nearest() <= u128::MAX {
        r.nearest()
    } else {
        u128::MAX as nat
    };
    if r.nanos > 0 {
        let (m, x, d, top) = (
            r.nearest() as int,
            r.bytes * 1_000_000_000,
            r.nanos as int,
            u128::MAX as int,
        );
        assert(2 * m * d == 2 * (m * d)) by (nonlinear_arith);
        if x <= top * d {
            assert(m <= top) by (nonlinear_arith)
                requires
                    2 * m * d <= 2 * x + d,
                    x <= top * d,
                    d > 0,
            ;
        } else {
            assert(m >= top) by (nonlinear_arith)
                requires
                    2 * x <= 2 * m * d + d,
                    x > top * d,
                    d > 0,
            ;
        }
    }
    n
}

/// The JSON array has one object for each row, in their order, with commas
/// between them.
pub proof fn law_json_array_has_every_row(rows: Seq<RowView>)
    ensures
        json_array(rows) == "[\n"@ + joined(
            Seq::new(
                rows.len(),
                |i: int|
                    json_object(rows[i]) + (if i + 1 < rows.len() {
                        ",\n"@
                    } else {
                        "\n"@
                    }),
            ),
        ) + "]\n"@,
{
    lemma_json_lines(rows, rows.len());
    let lines = Seq::new(
        rows.len(),
        |i: int|
            json_object(rows[i]) + (if i + 1 < rows.len() {
                ",\n"@
            } else {
                "\n"@
            }),
    );
    assert(lines.take(rows.len() as int) =~= lines);
}

proof fn lemma_json_lines(rows: Seq<RowView>, shown: nat)
    requires
        shown <= rows.len(),
    ensures
        json_lines(rows, shown) == joined(
            Seq::new(
                rows.len(),
                |i: int|
                    json_object(rows[i]) + (if i + 1 < rows.len() {
                        ",\n"@
                    } else {
                        "\n"@
                    }),
            ).take(shown as int),
        ),
    decreases shown,
{
    let lines = Seq::new(
        rows.len(),
        |i: int|
            json_object(rows[i]) + (if i + 1 < rows.len() {
                ",\n"@
            } else {
                "\n"@
            }),
    );
    if shown > 0 {
        lemma_json_lines(rows, (shown - 1) as nat);
        assert(lines.take(shown as int).drop_last() =~= lines.take(shown - 1));
        assert(lines.take(shown as int).last() == lines[shown - 1]);
        reveal_strlit(",");
        reveal_strlit("\n");
        reveal_strlit(",\n");
        assert(","@ + "\n"@ =~= ",\n"@);
        assert(seq![] + "\n"@ =~= "\n"@);
        assert(json_lines(rows, shown) =~= joined(lines.take(shown as int)));
    }
}

/// Whether `n` is what `bytes` over `nanos` come to in a second, rounded down.
pub open spec fn whole_per_second(n: nat, bytes: u128, nanos: u64) -> bool {
    if nanos == 0 {
        n == 0
    } else {
        n * nanos <= bytes * 1_000_000_000 < (n + 1) * nanos
    }
}

/// A rate is shown as the bytes that move in a second, rounded down.
pub proof fn law_shown_rate_is_bytes_per_second(r: Rate)
    ensures
        exists|n: nat| #[trigger]
            whole_per_second(n, r.bytes, r.nanos) && shown_rate(r) == crate::format::byte_text(
                if n <= u64::MAX {
                    n
                } else {
                    u64::MAX as nat
                },
            ) + seq!['/', 's'],
{
    crate::rate::law_whole_is_bytes_per_second(r);
    reveal_strlit("/s");
    assert("/s"@ =~= seq!['/', 's']);
    assert(whole_per_second(r.whole(), r.bytes, r.nanos));
}

/// A line of the text table gives each of the process's numbers in its own
/// column: pid, name, down, up, total and connections, from left to right.
pub proof fn law_table_line_says_the_row(r: RowView)
    ensures
        row_line(r) == text::right_aligned(text::decimal(r.pid as nat), 6) + "  "@
            + text::left_aligned(truncated(r.name, 24), 24) + "  "@ + text::right_aligned(
            shown_rate(Rate { bytes: r.rx_delta, nanos: r.span }),
            11,
        ) + "  "@ + text::right_aligned(shown_rate(Rate { bytes: r.tx_delta, nanos: r.span }), 11)
            + "  "@ + text::right_aligned(
            crate::format::byte_text(
                if r.rx_total + r.tx_total <= u64::MAX {
                    (r.rx_total + r.tx_total) as nat
                } else {
                    u64::MAX as nat
                },
            ),
            10,
        ) + "  "@ + text::right_aligned(text::decimal(r.conns as nat), 5) + "\n"@,
{
}

/// The text table has its heading, a line for each row in their order, and a
/// remark just if there is none.
pub proof fn law_table_has_every_row(rows: Seq<RowView>)
    ensures
        table(rows) == table_line("PID"@, "PROCESS"@, "DOWN/s"@, "UP/s"@, "TOTAL"@, "CONNS"@)
            + joined(rows.map_values(|r: RowView| row_line(r))) + (if rows.len() == 0 {
            "(no per-process network flows seen)\n"@
        } else {
            seq![]
        }),
{
    lemma_row_lines(rows);
}

proof fn lemma_row_lines(rows: Seq<RowView>)
    ensures
        row_lines(rows) == joined(rows.map_values(|r: RowView| row_line(r))),
    decreases rows.len(),
{
    let lines = rows.map_values(|r: RowView| row_line(r));
    if rows.len() > 0 {
        lemma_row_lines(rows.drop_last());
        assert(lines.drop_last() =~= rows.drop_last().map_values(|r: RowView| row_line(r)));
    }
}

/// The aggregate rate of the diagnostics is that of all processes together, down
/// and up, over the tick they share.
pub proof fn law_aggregate_rate_has_every_row(rows: Seq<RowView>)
    ensures
        ({
            let all = crate::model::laws::added_up(
                Seq::new(rows.len(), |i: int| (rows[i].rx_delta + rows[i].tx_delta) as nat),
            );
            aggregate_rate(rows).bytes == if all <= u128::MAX {
                all
            } else {
                u128::MAX as nat
            }
        }),
        rows.len() > 0 ==> aggregate_rate(rows).nanos == rows[0].span,
        rows.len() == 0 ==> aggregate_rate(rows).nanos == 0,
{
    lemma_moved(rows);
}

proof fn lemma_moved(rows: Seq<RowView>)
    ensures
        moved(rows) == crate::model::laws::added_up(
            Seq::new(rows.len(), |i: int| (rows[i].rx_delta + rows[i].tx_delta) as nat),
        ),
    decreases rows.len(),
{
    let parts = Seq::new(rows.len(), |i: int| (rows[i].rx_delta + rows[i].tx_delta) as nat);
    if rows.len() > 0 {
        let front = rows.drop_last();
        lemma_moved(front);
        assert(parts.drop_last() =~= Seq::new(
            front.len(),
            |i: int| (front[i].rx_delta + front[i].tx_delta) as nat,
        ));
    }
}

/// A line of the top talkers gives the process's pid, name and both rates.
pub proof fn law_talker_line_says_the_row(r: RowView)
    ensures
        talker_line(r) == "    "@ + text::right_aligned(text::decimal(r.pid as nat), 6) + "  "@
            + text::left_aligned(truncated(r.name, 22), 22) + "  ↓"@ + text::right_aligned(
            shown_rate(Rate { bytes: r.rx_delta, nanos: r.span }),
            10,
        ) + "  ↑"@ + text::right_aligned(shown_rate(Rate { bytes: r.tx_delta, nanos: r.span }), 10)
            + "\n"@,
{
}

/// The diagnostics end with the first five rows, or all if there are fewer, in
/// their order, and say so if there is none.
pub proof fn law_diagnosis_ends_with_the_talkers(
    elevated: bool,
    flows: nat,
    rows: Seq<RowView>,
    last_error: Option<u32>,
)
    ensures
        ({
            let n = if rows.len() < 5 {
                rows.len()
            } else {
                5
            };
            let privilege = if elevated {
                "root (all processes)"@
            } else {
                "user (your flows)"@
            };
            let error = if last_error is Some {
                text::decimal(last_error->0 as nat)
            } else {
                "none"@
            };
            diagnosis(elevated, flows, rows, last_error) == "  privilege        : "@ + privilege
                + "\n  tracked flows    : "@ + text::decimal(flows) + "\n  named processes  : "@
                + text::decimal(rows.len()) + "\n  aggregate rate   : "@ + shown_rate(
                aggregate_rate(rows),
            ) + "\n  last kernel error: "@ + error + "\n"@ + (if rows.len() > 0 {
                "\n  top talkers:\n"@ + joined(
                    Seq::new(n, |i: int| talker_line(rows[i])),
                )
            } else {
                "\n  no per-process flows seen — generate some traffic (e.g. curl) and retry.\n"@
            })
        }),
{
    let n = if rows.len() < 5 {
        rows.len()
    } else {
        5
    };
    lemma_talker_lines(rows, n);
}

proof fn lemma_talker_lines(rows: Seq<RowView>, n: nat)
    ensures
        talker_lines(rows, n) == joined(Seq::new(n, |i: int| talker_line(rows[i]))),
    decreases n,
{
    if n > 0 {
        lemma_talker_lines(rows, (n - 1) as nat);
        assert(Seq::new(n, |i: int| talker_line(rows[i])).drop_last() =~= Seq::new(
            (n - 1) as nat,
            |i: int| talker_line(rows[i]),
        ));
    }
}

/// A name that is cut keeps its start and ends in an ellipsis, and fills just the
/// columns it was given.
pub proof fn law_cut_names_keep_their_start(s: Seq<char>, n: nat)
    requires
        s.len() > n > 0,
    ensures
        truncated(s, n).len() == n,
        forall|i: int| 0 <= i < n - 1 ==> #[trigger] truncated(s, n)[i] == s[i],
        truncated(s, n)[n - 1] == '…',
{
}

/// A time of day has two digits for each of its parts.
pub proof fn law_clock_has_two_digits_each(hour: nat, minute: nat, second: nat)
    requires
        hour < 100,
        minute < 100,
        second < 100,
    ensures
        ({
            let t = clock(hour, minute, second);
            &&& t.len() == 8
            &&& text::spelled(t.subrange(0, 2)) == hour && t[2] == ':'
            &&& text::spelled(t.subrange(3, 5)) == minute && t[5] == ':'
            &&& text::spelled(t.subrange(6, 8)) == second
        }),
{
    lemma_two_digits(hour);
    lemma_two_digits(minute);
    lemma_two_digits(second);
    reveal_strlit(":");
    let t = clock(hour, minute, second);
    assert(t.subrange(0, 2) =~= two_digits(hour));
    assert(t.subrange(3, 5) =~= two_digits(minute));
    assert(t.subrange(6, 8) =~= two_digits(second));
}

proof fn lemma_two_digits(n: nat)
    requires
        n < 100,
    ensures
        two_digits(n).len() == 2,
        text::spelled(two_digits(n)) == n,
{
    reveal_strlit("0");
    reveal_with_fuel(text::decimal, 3);
    reveal_with_fuel(text::spelled, 3);
    let s = two_digits(n);
    assert(s.len() == 2);
    assert(s[0] as nat == 48 + n / 10 && s[1] as nat == 48 + n % 10);
    assert(s.drop_last().drop_last() =~= seq![]);
    assert(s.drop_last().last() == s[0]);
}

/// A character that JSON lets stand stands as it is; a quote and a backslash get a
/// backslash before them, and a control character its number in four hexadecimal
/// digits.
pub proof fn law_json_escapes(c: char)
    ensures
        c == '"' ==> escape(c) == seq!['\\', '"'],
        c == '\\' ==> escape(c) == seq!['\\', '\\'],
        c >= ' ' && c != '"' && c != '\\' ==> escape(c) == seq![c],
        ' ' > c ==> {
            let (high, low) = (c as int / 16, c as int % 16);
            &&& escape(c).len() == 6
            &&& escape(c).take(4) == seq!['\\', 'u', '0', '0']
            &&& escape(c)[4] == (if high == 1 {
                '1'
            } else {
                '0'
            })
            &&& low < 10 ==> escape(c)[5] as int == 48 + low
            &&& low >= 10 ==> escape(c)[5] as int == 97 + low - 10
        },
{
    if ' ' > c {
        assert(escape(c).take(4) =~= seq!['\\', 'u', '0', '0']);
    }
}

/// Text is escaped character by character, in order.
pub proof fn law_json_escapes_each_character(s: Seq<char>, c: char)
    ensures
        escaped(seq![]).len() == 0,
        escaped(s.push(c)) == escaped(s) + escape(c),
    decreases s.len(),
{
    let t = s.push(c);
    if s.len() == 0 {
        assert(t.drop_first() =~= seq![]);
        assert(t[0] == c);
        assert(escaped(t.drop_first()) =~= seq![]);
        assert(escaped(s) =~= seq![]);
        assert(escaped(t) =~= escaped(s) + escape(c));
    } else {
        law_json_escapes_each_character(s.drop_first(), c);
        assert(t.drop_first() =~= s.drop_first().push(c));
        assert(escaped(t) =~= escaped(s) + escape(c));
    }
}

/// A name without any room is cut to the ellipsis alone.
pub proof fn law_no_room_for_the_name(s: Seq<char>)
    ensures
        s.len() > 0 ==> truncated(s, 0) == seq!['…'],
        s.len() == 0 ==> truncated(s, 0).len() == 0,
{
    assert(s.take(0).push('…') =~= seq!['…']);
}

/// The diagnostics open with whether the socket could be connected.
pub proof fn law_diagnosis_opens_with_the_socket(error: Seq<char>)
    ensures
        diag_opening(None)
            == "netpeek --diag\n  control socket   : "@ + "connected (com.apple.network.statistics)"@
            + "\n"@,
        diag_opening(Some(error)) == "netpeek --diag\n  control socket   : "@ + ("FAILED — "@ + error)
            + "\n"@,
{
}

} // verus!
