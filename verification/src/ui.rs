//! What the screen shows: the text, alignment and emphasis of every cell, ready
//! for a terminal library to draw.

use vstd::prelude::*;

use crate::app::{App, AppView, Mode};
use crate::model::{
    flow_seq, row_views, Flow, FlowView, ProcRow, Proto, RowView, SortKey,
};
use crate::rate::Rate;
use crate::report::{rate_string, shown_rate};
use crate::services::{Services, ServicesView};
use crate::text;

verus! {

/// How a piece of text stands out.
#[derive(Clone, Copy, Debug, PartialEq, Eq, Structural)]
pub enum Tone {
    /// The terminal's own colours.
    Plain,
    /// The program's name and headings.
    Title,
    Accent,
    White,
    Dim,
    /// Download.
    Down,
    /// Upload.
    Up,
    /// The mark of a frozen table.
    Paused,
    /// The mark of a privileged run.
    Root,
}

/// A piece of text on the screen.
#[derive(Debug, PartialEq, Eq)]
pub struct Piece {
    pub text: String,
    pub tone: Tone,
    /// Whether it stands at the right edge of its cell.
    pub right: bool,
}

/// What a [`Piece`] says, its text as characters.
pub ghost struct PieceView {
    pub text: Seq<char>,
    pub tone: Tone,
    pub right: bool,
}

impl View for Piece {
    type V = PieceView;

    open spec fn view(&self) -> PieceView {
        PieceView { text: self.text@, tone: self.tone, right: self.right }
    }
}

/// The views of a sequence of pieces.
pub open spec fn pieces(s: Seq<Piece>) -> Seq<PieceView> {
    s.map_values(|p: Piece| p@)
}

/// The views of the rows of a table.
pub open spec fn cells(s: Seq<Vec<Piece>>) -> Seq<Seq<PieceView>> {
    s.map_values(|v: Vec<Piece>| pieces(v@))
}

/// How much room a column or a region takes.
#[derive(Clone, Copy, Debug, PartialEq, Eq, Structural)]
pub enum Room {
    /// Just this much.
    Length(u16),
    /// At least this much.
    Min(u16),
}

/// A table on the screen.
pub struct TableView {
    pub title: String,
    pub header: Vec<Piece>,
    pub body: Vec<Vec<Piece>>,
    pub widths: Vec<Room>,
    /// The row that is highlighted.
    pub selected: Option<usize>,
}

/// Status-line facts the render loop hands in each frame.
#[derive(Debug)]
pub struct StatusInfo {
    pub proc_count: usize,
    pub flow_count: usize,
    pub interval_nanos: u64,
    pub last_update: String,
    pub elevated: bool,
}

/// Left-aligned text.
pub open spec fn left(text: Seq<char>, tone: Tone) -> PieceView {
    PieceView { text, tone, right: false }
}

/// Right-aligned text.
pub open spec fn right(text: Seq<char>, tone: Tone) -> PieceView {
    PieceView { text, tone, right: true }
}

fn piece(text: &str, tone: Tone, right: bool) -> (p: Piece)
    ensures
        p@ == (PieceView { text: text@, tone, right }),
{
    Piece { text: text.to_owned(), tone, right }
}

fn put(out: &mut Vec<Piece>, p: Piece)
    ensures
        pieces(final(out)@) == pieces(old(out)@).push(p@),
{
    out.push(p);
    assert(pieces(out@) =~= pieces(old(out)@).push(p@));
}

// ---- status line -----------------------------------------------------------

/// The arrow of a sort direction.
pub open spec fn arrow(down: bool) -> Seq<char> {
    if down {
        "↓"@
    } else {
        "↑"@
    }
}

fn arrow_str(down: bool) -> (r: &'static str)
    ensures
        r@ == arrow(down),
{
    if down {
        "↓"
    } else {
        "↑"
    }
}

/// The status line: name, counts, sort order, interval, and the marks for a
/// paused table and for a privileged run.
pub open spec fn status_line(
    a: AppView,
    procs: nat,
    flows: nat,
    interval_nanos: nat,
    last_update: Seq<char>,
    elevated: bool,
) -> Seq<PieceView> {
    seq![
        left("netpeek"@, Tone::Title),
        left("  "@, Tone::Plain),
        left(text::decimal(procs) + " procs"@, Tone::White),
        left("  "@, Tone::Plain),
        left(text::decimal(flows) + " flows"@, Tone::Dim),
        left("  sort "@, Tone::Plain),
        left(a.sort.text() + arrow(a.sort_desc), Tone::Accent),
        left(
            "  every "@ + text::decimal(crate::format::nearest(interval_nanos, 1_000_000_000))
                + "s"@,
            Tone::Plain,
        ),
    ] + (if a.paused {
        seq![left("  PAUSED"@, Tone::Paused)]
    } else {
        seq![]
    }) + (if elevated {
        seq![left("  [root: all procs]"@, Tone::Root)]
    } else {
        seq![left("  [your flows]"@, Tone::Dim)]
    }) + seq![left("  upd "@ + last_update, Tone::Dim)]
}

/// The pieces of the status line.
pub fn status(app: &App, info: &StatusInfo) -> (out: Vec<Piece>)
    ensures
        pieces(out@) == status_line(
            app@,
            info.proc_count as nat,
            info.flow_count as nat,
            info.interval_nanos as nat,
            info.last_update@,
            info.elevated,
        ),
{
    let mut out: Vec<Piece> = Vec::new();
    assert(pieces(out@) =~= seq![]);
    put(&mut out, piece("netpeek", Tone::Title, false));
    put(&mut out, piece("  ", Tone::Plain, false));
    let mut procs: String = text::decimal_string(info.proc_count as u128);
    procs.append(" procs");
    put(&mut out, piece(procs.as_str(), Tone::White, false));
    put(&mut out, piece("  ", Tone::Plain, false));
    let mut flows: String = text::decimal_string(info.flow_count as u128);
    flows.append(" flows");
    put(&mut out, piece(flows.as_str(), Tone::Dim, false));
    put(&mut out, piece("  sort ", Tone::Plain, false));
    let mut sort: String = app.sort.label().to_owned();
    sort.append(arrow_str(app.sort_desc));
    put(&mut out, piece(sort.as_str(), Tone::Accent, false));
    let mut every: String = "  every ".to_owned();
    text::push_decimal(
        &mut every,
        crate::format::round_half_even(info.interval_nanos as u128, 1_000_000_000),
    );
    every.append("s");
    put(&mut out, piece(every.as_str(), Tone::Plain, false));
    if app.paused {
        put(&mut out, piece("  PAUSED", Tone::Paused, false));
    }
    if info.elevated {
        put(&mut out, piece("  [root: all procs]", Tone::Root, false));
    } else {
        put(&mut out, piece("  [your flows]", Tone::Dim, false));
    }
    let mut upd: String = "  upd ".to_owned();
    upd.append(info.last_update.as_str());
    put(&mut out, piece(upd.as_str(), Tone::Dim, false));
    assert(pieces(out@) =~= status_line(
        app@,
        info.proc_count as nat,
        info.flow_count as nat,
        info.interval_nanos as nat,
        info.last_update@,
        info.elevated,
    ));
    out
}

// ---- the process table -----------------------------------------------------

/// Whether the terminal is wide enough to show the inline sparkline columns.
pub fn wide(width: u16) -> (r: bool)
    ensures
        r == (width >= 92),
{
    width >= 92
}

/// A column's heading, with an arrow if the table is sorted by it.
pub open spec fn marked(a: AppView, key: SortKey, base: Seq<char>) -> Seq<char> {
    if a.sort == key {
        base + arrow(a.sort_desc)
    } else {
        base
    }
}

fn mark(app: &App, key: SortKey, base: &str) -> (r: String)
    ensures
        r@ == marked(app@, key, base@),
{
    let mut r: String = base.to_owned();
    if app.sort == key {
        r.append(arrow_str(app.sort_desc));
    }
    r
}

/// `s` if `on`, else nothing.
pub open spec fn only_if<T>(on: bool, s: Seq<T>) -> Seq<T> {
    if on {
        s
    } else {
        seq![]
    }
}

/// The heading of the process table.
pub open spec fn table_header(a: AppView, spark: bool) -> Seq<PieceView> {
    seq![
        left(marked(a, SortKey::Pid, "PID"@), Tone::Plain),
        left(marked(a, SortKey::Name, "PROCESS"@), Tone::Plain),
        right(marked(a, SortKey::Rate, "DOWN"@), Tone::Plain),
    ] + only_if(spark, seq![left("  ↓"@, Tone::Plain)]) + seq![right("UP"@, Tone::Plain)]
        + only_if(spark, seq![left("  ↑"@, Tone::Plain)]) + seq![
        right(marked(a, SortKey::Total, "TOTAL"@), Tone::Plain),
        right(marked(a, SortKey::Conns, "CONNS"@), Tone::Plain),
    ]
}

/// A rate in a cell: dimmed when idle.
pub open spec fn rate_piece(r: Rate, tone: Tone) -> PieceView {
    right(
        shown_rate(r),
        if r.whole() < 1 {
            Tone::Dim
        } else {
            tone
        },
    )
}

/// The line of a process.
pub open spec fn table_row(a: AppView, r: RowView, spark: bool) -> Seq<PieceView> {
    seq![
        right(text::decimal(r.pid as nat), Tone::Plain),
        left(
            (if a.expanded == Some(r.pid) {
                "▾ "@
            } else {
                "▸ "@
            }) + r.name,
            Tone::Plain,
        ),
        rate_piece(r.rx_rate(), Tone::Down),
    ] + only_if(spark, seq![left(crate::format::spark_text(r.rx_hist, 6), Tone::Down)]) + seq![
        rate_piece(r.tx_rate(), Tone::Up),
    ] + only_if(spark, seq![left(crate::format::spark_text(r.tx_hist, 6), Tone::Up)]) + seq![
        right(crate::format::byte_text(r.total_bytes() as nat), Tone::Plain),
        right(text::decimal(r.conns as nat), Tone::Plain),
    ]
}

/// The widths of the columns.
pub open spec fn table_widths(spark: bool) -> Seq<Room> {
    seq![Room::Length(7), Room::Min(14), Room::Length(11)] + only_if(
        spark,
        seq![Room::Length(6)],
    ) + seq![Room::Length(11)] + only_if(spark, seq![Room::Length(6)]) + seq![
        Room::Length(9),
        Room::Length(6),
    ]
}

/// The title of the process table: the filter, with a cursor while it is typed.
pub open spec fn table_title(a: AppView) -> Seq<char> {
    if a.filter.len() == 0 && a.mode != Mode::Filter {
        " processes "@
    } else {
        " filter: "@ + a.filter + if a.mode == Mode::Filter {
            "_ "@
        } else {
            " "@
        }
    }
}

fn rate_cell(r: &Rate, tone: Tone) -> (p: Piece)
    ensures
        p@ == rate_piece(*r, tone),
{
    let tone: Tone = if r.is_idle() { Tone::Dim } else { tone };
    Piece { text: rate_string(r), tone, right: true }
}

fn header_row(app: &App, spark: bool) -> (out: Vec<Piece>)
    ensures
        pieces(out@) == table_header(app@, spark),
{
    let mut out: Vec<Piece> = Vec::new();
    assert(pieces(out@) =~= seq![]);
    put(&mut out, piece(mark(app, SortKey::Pid, "PID").as_str(), Tone::Plain, false));
    put(&mut out, piece(mark(app, SortKey::Name, "PROCESS").as_str(), Tone::Plain, false));
    put(&mut out, piece(mark(app, SortKey::Rate, "DOWN").as_str(), Tone::Plain, true));
    if spark {
        put(&mut out, piece("  ↓", Tone::Plain, false));
    }
    put(&mut out, piece("UP", Tone::Plain, true));
    if spark {
        put(&mut out, piece("  ↑", Tone::Plain, false));
    }
    put(&mut out, piece(mark(app, SortKey::Total, "TOTAL").as_str(), Tone::Plain, true));
    put(&mut out, piece(mark(app, SortKey::Conns, "CONNS").as_str(), Tone::Plain, true));
    assert(pieces(out@) =~= table_header(app@, spark));
    out
}

fn process_row(app: &App, r: &ProcRow, spark: bool) -> (out: Vec<Piece>)
    ensures
        pieces(out@) == table_row(app@, r@, spark),
{
    let mut out: Vec<Piece> = Vec::new();
    assert(pieces(out@) =~= seq![]);
    put(&mut out, piece(text::decimal_string(r.pid as u128).as_str(), Tone::Plain, true));
    let open: bool = match app.expanded {
        Some(pid) => pid == r.pid,
        None => false,
    };
    let mut name: String = if open { "▾ ".to_owned() } else { "▸ ".to_owned() };
    name.append(r.name.as_str());
    put(&mut out, piece(name.as_str(), Tone::Plain, false));
    put(&mut out, rate_cell(&r.rx_rate(), Tone::Down));
    if spark {
        let s: String = crate::format::spark(r.rx_hist.as_slice(), 6);
        put(&mut out, piece(s.as_str(), Tone::Down, false));
    }
    put(&mut out, rate_cell(&r.tx_rate(), Tone::Up));
    if spark {
        let s: String = crate::format::spark(r.tx_hist.as_slice(), 6);
        put(&mut out, piece(s.as_str(), Tone::Up, false));
    }
    put(&mut out, piece(crate::format::bytes(r.total_bytes()).as_str(), Tone::Plain, true));
    put(&mut out, piece(text::decimal_string(r.conns as u128).as_str(), Tone::Plain, true));
    assert(pieces(out@) =~= table_row(app@, r@, spark));
    out
}

fn column_widths(spark: bool) -> (out: Vec<Room>)
    ensures
        out@ == table_widths(spark),
{
    let mut out: Vec<Room> = Vec::new();
    out.push(Room::Length(7));
    out.push(Room::Min(14));
    out.push(Room::Length(11));
    if spark {
        out.push(Room::Length(6));
    }
    out.push(Room::Length(11));
    if spark {
        out.push(Room::Length(6));
    }
    out.push(Room::Length(9));
    out.push(Room::Length(6));
    assert(out@ =~= table_widths(spark));
    out
}

/// The process table for an area of the width.
pub fn table(app: &App, rows: &[ProcRow], width: u16) -> (t: TableView)
    ensures
        t.title@ == table_title(app@),
        pieces(t.header@) == table_header(app@, width >= 92),
        cells(t.body@) == row_views(rows@).map_values(
            |r: RowView| table_row(app@, r, width >= 92),
        ),
        t.widths@ == table_widths(width >= 92),
        t.selected == if rows@.len() == 0 {
            None
        } else if app.selected < rows@.len() {
            Some(app.selected)
        } else {
            Some((rows@.len() - 1) as usize)
        },
{
    let spark: bool = wide(width);
    let mut body: Vec<Vec<Piece>> = Vec::new();
    let ghost want = row_views(rows@).map_values(|r: RowView| table_row(app@, r, width >= 92));
    let mut i: usize = 0;
    while i < rows.len()
        invariant
            spark == (width >= 92),
            i <= rows@.len(),
            want == row_views(rows@).map_values(|r: RowView| table_row(app@, r, width >= 92)),
            cells(body@) == want.take(i as int),
        decreases rows@.len() - i,
    {
        let ghost was = body@;
        let line: Vec<Piece> = process_row(app, &rows[i], spark);
        let ghost shown = pieces(line@);
        body.push(line);
        assert(cells(body@) =~= cells(was).push(shown));
        i += 1;
        assert(cells(body@) =~= want.take(i as int));
    }
    assert(want.take(want.len() as int) =~= want);
    let title: String = if app.filter.as_str().is_empty() && app.mode != Mode::Filter {
        " processes ".to_owned()
    } else {
        let mut t: String = " filter: ".to_owned();
        t.append(app.filter.as_str());
        if app.mode == Mode::Filter {
            t.append("_ ");
        } else {
            t.append(" ");
        }
        t
    };
    let selected: Option<usize> = if rows.len() == 0 {
        None
    } else if app.selected < rows.len() {
        Some(app.selected)
    } else {
        Some(rows.len() - 1)
    };
    TableView {
        title,
        header: header_row(app, spark),
        body,
        widths: column_widths(spark),
        selected,
    }
}

// ---- the detail pane -------------------------------------------------------

/// The line of a flow. `host` is the remote host's name or address.
pub open spec fn flow_row(f: FlowView, host: Seq<char>, services: ServicesView) -> Seq<PieceView> {
    seq![
        left(
            match f.proto {
                Proto::Tcp => "TCP"@,
                Proto::Udp => "UDP"@,
            },
            Tone::Plain,
        ),
        left(
            if f.proto == Proto::Tcp {
                crate::format::state_name(f.tcp_state)
            } else {
                "—"@
            },
            Tone::Plain,
        ),
        left(
            match f.remote {
                Some(e) => host + ":"@ + services.port_label(e.port, f.proto),
                None => "—"@,
            },
            Tone::Plain,
        ),
        rate_piece(f.rx_rate(), Tone::Down),
        rate_piece(f.tx_rate(), Tone::Up),
    ]
}

/// The title of the detail pane: the process and how many flows it has.
pub open spec fn detail_title(a: AppView, flows: Seq<FlowView>) -> Seq<char> {
    " "@ + (if flows.len() > 0 {
        flows[0].pname
    } else {
        seq![]
    }) + " (pid "@ + text::decimal(
        match a.expanded {
            Some(pid) => pid as nat,
            None => 0,
        },
    ) + ") — "@ + text::decimal(flows.len()) + " flows "@
}

/// The heading of the detail pane.
pub open spec fn detail_header() -> Seq<PieceView> {
    seq![
        left("PROTO"@, Tone::Plain),
        left("STATE"@, Tone::Plain),
        left("REMOTE"@, Tone::Plain),
        right("DOWN"@, Tone::Plain),
        right("UP"@, Tone::Plain),
    ]
}

/// What a remote host is shown as: its name once that is resolved, else its
/// address.
pub open spec fn shown_host(name: Option<String>, address: String) -> Seq<char> {
    match name {
        Some(n) => n@,
        None => address@,
    }
}

/// The lines of the detail pane.
pub open spec fn detail_rows(
    flows: Seq<FlowView>,
    names: Seq<Option<String>>,
    addresses: Seq<String>,
    services: ServicesView,
) -> Seq<Seq<PieceView>> {
    Seq::new(
        flows.len(),
        |i: int| flow_row(flows[i], shown_host(names[i], addresses[i]), services),
    )
}

fn detail_row(f: &Flow, host: &str, services: &Services) -> (out: Vec<Piece>)
    ensures
        pieces(out@) == flow_row(f@, host@, services@),
{
    let mut out: Vec<Piece> = Vec::new();
    assert(pieces(out@) =~= seq![]);
    put(&mut out, piece(f.proto.as_str(), Tone::Plain, false));
    let state: &str = if f.proto == Proto::Tcp {
        crate::format::tcp_state(f.tcp_state)
    } else {
        "—"
    };
    put(&mut out, piece(state, Tone::Plain, false));
    let remote: String = match f.remote {
        Some(e) => {
            let mut s: String = host.to_owned();
            s.append(":");
            s.append(services.label(e.port, f.proto).as_str());
            s
        },
        None => "—".to_owned(),
    };
    put(&mut out, piece(remote.as_str(), Tone::Plain, false));
    put(&mut out, rate_cell(&f.rx_rate(), Tone::Down));
    put(&mut out, rate_cell(&f.tx_rate(), Tone::Up));
    assert(pieces(out@) =~= flow_row(f@, host@, services@));
    out
}

/// The detail pane. `names[i]` is the name that the remote host of the `i`-th
/// flow resolved to, if it has, and `addresses[i]` its address.
pub fn detail(
    app: &App,
    flows: &[Flow],
    services: &Services,
    names: &Vec<Option<String>>,
    addresses: &Vec<String>,
) -> (t: TableView)
    requires
        names@.len() == flows@.len(),
        addresses@.len() == flows@.len(),
    ensures
        t.title@ == detail_title(app@, flow_seq(flows@)),
        pieces(t.header@) == detail_header(),
        cells(t.body@) == detail_rows(flow_seq(flows@), names@, addresses@, services@),
        t.widths@ == seq![
            Room::Length(5),
            Room::Length(12),
            Room::Min(20),
            Room::Length(11),
            Room::Length(11),
        ],
        t.selected is None,
{
    let mut title: String = " ".to_owned();
    if flows.len() > 0 {
        title.append(flows[0].pname.as_str());
    }
    title.append(" (pid ");
    let pid: u32 = match app.expanded {
        Some(pid) => pid,
        None => 0,
    };
    text::push_decimal(&mut title, pid as u128);
    title.append(") — ");
    text::push_decimal(&mut title, flows.len() as u128);
    title.append(" flows ");
    assert(title@ =~= detail_title(app@, flow_seq(flows@)));

    let mut header: Vec<Piece> = Vec::new();
    assert(pieces(header@) =~= seq![]);
    put(&mut header, piece("PROTO", Tone::Plain, false));
    put(&mut header, piece("STATE", Tone::Plain, false));
    put(&mut header, piece("REMOTE", Tone::Plain, false));
    put(&mut header, piece("DOWN", Tone::Plain, true));
    put(&mut header, piece("UP", Tone::Plain, true));
    assert(pieces(header@) =~= detail_header());

    let ghost want = detail_rows(flow_seq(flows@), names@, addresses@, services@);
    let mut body: Vec<Vec<Piece>> = Vec::new();
    let mut i: usize = 0;
    while i < flows.len()
        invariant
            i <= flows@.len() == names@.len() == addresses@.len(),
            want == detail_rows(flow_seq(flows@), names@, addresses@, services@),
            cells(body@) == want.take(i as int),
        decreases flows@.len() - i,
    {
        let ghost was = body@;
        let host: &str = match &names[i] {
            Some(name) => name.as_str(),
            None => addresses[i].as_str(),
        };
        let line: Vec<Piece> = detail_row(&flows[i], host, services);
        let ghost shown = pieces(line@);
        body.push(line);
        assert(cells(body@) =~= cells(was).push(shown));
        i += 1;
        assert(cells(body@) =~= want.take(i as int));
    }
    assert(want.take(want.len() as int) =~= want);

    let mut widths: Vec<Room> = Vec::new();
    widths.push(Room::Length(5));
    widths.push(Room::Length(12));
    widths.push(Room::Min(20));
    widths.push(Room::Length(11));
    widths.push(Room::Length(11));
    TableView { title, header, body, widths, selected: None }
}

// ---- the rest of the frame -------------------------------------------------

/// The hint at the bottom of the screen.
pub fn footer(app: &App) -> (r: &'static str)
    ensures
        r@ == if app.mode == Mode::Filter {
            "type to filter   enter accept   esc clear"@
        } else {
            "q quit  ↑↓ move  enter expand  / filter  p pause  r/t/n/c/i sort  ? help"@
        },
{
    if app.mode == Mode::Filter {
        "type to filter   enter accept   esc clear"
    } else {
        "q quit  ↑↓ move  enter expand  / filter  p pause  r/t/n/c/i sort  ? help"
    }
}

/// Whether the detail pane is shown: a process is expanded and has flows.
pub open spec fn has_detail(a: AppView, flows: nat) -> bool {
    a.expanded is Some && flows > 0
}

/// The height of the detail pane: a line for each flow and three around them, no
/// less than 5 and no more than 14.
pub open spec fn detail_height(flows: nat) -> nat {
    if flows + 3 < 5 {
        5
    } else if flows + 3 > 14 {
        14
    } else {
        flows + 3
    }
}

/// The regions of the frame from the top: status, table, the detail pane if it is
/// shown, and the footer.
pub fn regions(app: &App, flows: usize) -> (out: Vec<Room>)
    ensures
        out@ == seq![Room::Length(1), Room::Min(3)] + only_if(
            has_detail(app@, flows as nat),
            seq![Room::Length(detail_height(flows as nat) as u16)],
        ) + seq![Room::Length(1)],
{
    let mut out: Vec<Room> = Vec::new();
    out.push(Room::Length(1));
    out.push(Room::Min(3));
    if app.expanded.is_some() && flows > 0 {
        let height: u16 = if flows < 2 {
            5
        } else if flows > 11 {
            14
        } else {
            flows as u16 + 3
        };
        out.push(Room::Length(height));
    }
    out.push(Room::Length(1));
    assert(out@ =~= seq![Room::Length(1), Room::Min(3)] + only_if(
        has_detail(app@, flows as nat),
        seq![Room::Length(detail_height(flows as nat) as u16)],
    ) + seq![Room::Length(1)]);
    out
}

/// The percentages of a band of `pct` percent between two equal margins.
pub fn centered(pct: u16) -> (r: (u16, u16, u16))
    requires
        pct <= 100,
    ensures
        r.0 == (100 - pct) / 2,
        r.1 == pct,
        r.2 == r.0,
{
    ((100 - pct) / 2, pct, (100 - pct) / 2)
}

// ---- laws ------------------------------------------------------------------

/// The heading, the widths and every line of the process table have the same
/// number of columns.
pub proof fn law_table_columns_line_up(a: AppView, r: RowView, spark: bool)
    ensures
        table_header(a, spark).len() == table_widths(spark).len(),
        table_row(a, r, spark).len() == table_widths(spark).len(),
{
}

/// The detail pane's heading and lines have the same number of columns.
pub proof fn law_detail_columns_line_up(f: FlowView, host: Seq<char>, services: ServicesView)
    ensures
        flow_row(f, host, services).len() == detail_header().len(),
{
}

/// A rate's cell stands at the right, shows the bytes per second, and is dim just
/// when less than one moves.
pub proof fn law_rate_cell(bytes: u128, nanos: u64, tone: Tone)
    ensures
        ({
            let p = rate_piece(Rate { bytes, nanos }, tone);
            &&& p.right
            &&& p.text == shown_rate(Rate { bytes, nanos })
            &&& bytes * 1_000_000_000 < nanos || nanos == 0 ==> p.tone == Tone::Dim
            &&& bytes * 1_000_000_000 >= nanos > 0 ==> p.tone == tone
        }),
{
    let r = Rate { bytes, nanos };
    crate::rate::law_whole_is_bytes_per_second(r);
    let (w, d, x) = (r.whole() as int, nanos as int, bytes * 1_000_000_000);
    if nanos > 0 {
        assert(w < 1 <==> x < d) by (nonlinear_arith)
            requires
                w * d <= x < (w + 1) * d,
                d > 0,
                w >= 0,
        ;
    }
}

/// A line of the process table gives each of the process's numbers in its own
/// column, the sparklines right after the rates they belong to.
pub proof fn law_table_row_says_the_process(a: AppView, r: RowView, spark: bool)
    ensures
        ({
            let row = table_row(a, r, spark);
            let (up, total, conns) = if spark {
                (4int, 6int, 7int)
            } else {
                (3int, 4int, 5int)
            };
            &&& row.len() == conns + 1
            &&& row[0] == (PieceView {
                text: text::decimal(r.pid as nat),
                tone: Tone::Plain,
                right: true,
            })
            &&& row[1] == (PieceView {
                text: seq![
                    if a.expanded == Some(r.pid) {
                        '▾'
                    } else {
                        '▸'
                    },
                    ' ',
                ] + r.name,
                tone: Tone::Plain,
                right: false,
            })
            &&& row[2] == rate_piece(Rate { bytes: r.rx_delta, nanos: r.span }, Tone::Down)
            &&& row[up] == rate_piece(Rate { bytes: r.tx_delta, nanos: r.span }, Tone::Up)
            &&& spark ==> row[3] == (PieceView {
                text: crate::format::spark_text(r.rx_hist, 6),
                tone: Tone::Down,
                right: false,
            })
            &&& spark ==> row[5] == (PieceView {
                text: crate::format::spark_text(r.tx_hist, 6),
                tone: Tone::Up,
                right: false,
            })
            &&& row[total].text == crate::format::byte_text(
                if r.rx_total + r.tx_total <= u64::MAX {
                    (r.rx_total + r.tx_total) as nat
                } else {
                    u64::MAX as nat
                },
            )
            &&& row[conns].text == text::decimal(r.conns as nat)
            &&& row[total].right && row[conns].right
            &&& row[total].tone == Tone::Plain && row[conns].tone == Tone::Plain
        }),
{
    reveal_strlit("▾ ");
    reveal_strlit("▸ ");
    assert("▾ "@ =~= seq!['▾', ' ']);
    assert("▸ "@ =~= seq!['▸', ' ']);
}

/// The heading names the columns, and the arrow stands at just the one that the
/// table is sorted by: down for biggest first.
pub proof fn law_heading_marks_the_sorted_column(a: AppView, spark: bool)
    ensures
        ({
            let head = table_header(a, spark);
            let (up, total, conns) = if spark {
                (4int, 6int, 7int)
            } else {
                (3int, 4int, 5int)
            };
            let mark = |key: SortKey|
                if a.sort == key {
                    if a.sort_desc {
                        seq!['↓']
                    } else {
                        seq!['↑']
                    }
                } else {
                    Seq::<char>::empty()
                };
            &&& head.len() == conns + 1
            &&& head[0].text == "PID"@ + mark(SortKey::Pid)
            &&& head[1].text == "PROCESS"@ + mark(SortKey::Name)
            &&& head[2].text == "DOWN"@ + mark(SortKey::Rate)
            &&& head[up].text == "UP"@
            &&& head[total].text == "TOTAL"@ + mark(SortKey::Total)
            &&& head[conns].text == "CONNS"@ + mark(SortKey::Conns)
            &&& !head[0].right && !head[1].right
            &&& head[2].right && head[up].right && head[total].right && head[conns].right
            &&& spark ==> head[3].text == "  ↓"@ && head[5].text == "  ↑"@
            &&& spark ==> !head[3].right && !head[5].right
            &&& forall|i: int| 0 <= i < head.len() ==> (#[trigger] head[i]).tone == Tone::Plain
        }),
{
    reveal_strlit("↓");
    reveal_strlit("↑");
    assert("↓"@ =~= seq!['↓']);
    assert("↑"@ =~= seq!['↑']);
    assert("PID"@ + Seq::<char>::empty() =~= "PID"@);
    assert("PROCESS"@ + Seq::<char>::empty() =~= "PROCESS"@);
    assert("DOWN"@ + Seq::<char>::empty() =~= "DOWN"@);
    assert("TOTAL"@ + Seq::<char>::empty() =~= "TOTAL"@);
    assert("CONNS"@ + Seq::<char>::empty() =~= "CONNS"@);
}

/// The table's title shows the filter's text, with a cursor just while it is being
/// typed, and no filter at all when there is none.
pub proof fn law_title_shows_the_filter(a: AppView)
    ensures
        a.mode == Mode::Filter ==> table_title(a) == " filter: "@ + a.filter + "_ "@,
        a.mode == Mode::Normal && a.filter.len() > 0 ==> table_title(a) == " filter: "@ + a.filter
            + " "@,
        a.mode == Mode::Normal && a.filter.len() == 0 ==> table_title(a) == " processes "@,
{
}

/// The status line says how many processes and flows there are, how the table is
/// sorted, whether it is paused, whose flows it shows and when it was updated.
pub proof fn law_status_says_the_state(
    a: AppView,
    procs: nat,
    flows: nat,
    interval_nanos: nat,
    last_update: Seq<char>,
    elevated: bool,
)
    ensures
        ({
            let line = status_line(a, procs, flows, interval_nanos, last_update, elevated);
            let n = line.len() as int;
            &&& n == if a.paused {
                11int
            } else {
                10int
            }
            &&& line[0] == (PieceView { text: "netpeek"@, tone: Tone::Title, right: false })
            &&& line[1].text == "  "@ && line[3].text == "  "@ && line[5].text == "  sort "@
            &&& line[1].tone == Tone::Plain && line[3].tone == Tone::Plain
            &&& line[2].tone == Tone::White && line[4].tone == Tone::Dim
            &&& line[5].tone == Tone::Plain && line[6].tone == Tone::Accent
            &&& line[7].tone == Tone::Plain && line[n - 1].tone == Tone::Dim
            &&& a.paused ==> line[8].tone == Tone::Paused
            &&& line[n - 2].tone == if elevated {
                Tone::Root
            } else {
                Tone::Dim
            }
            &&& forall|i: int| 0 <= i < n ==> !(#[trigger] line[i]).right
            &&& line[2].text == text::decimal(procs) + " procs"@
            &&& line[4].text == text::decimal(flows) + " flows"@
            &&& line[6].text == a.sort.text() + (if a.sort_desc {
                seq!['↓']
            } else {
                seq!['↑']
            })
            &&& a.paused ==> line[8].text == "  PAUSED"@
            &&& line[n - 2].text == if elevated {
                "  [root: all procs]"@
            } else {
                "  [your flows]"@
            }
            &&& line[n - 1].text == "  upd "@ + last_update
            &&& exists|s: nat| #[trigger]
                seconds_near(s, interval_nanos) && line[7].text == "  every "@ + text::decimal(s)
                    + "s"@
        }),
{
    reveal_strlit("↓");
    reveal_strlit("↑");
    assert("↓"@ =~= seq!['↓']);
    assert("↑"@ =~= seq!['↑']);
    let s = crate::format::nearest(interval_nanos, 1_000_000_000);
    vstd::arithmetic::div_mod::lemma_fundamental_div_mod(interval_nanos as int, 1_000_000_000);
    assert(seconds_near(s, interval_nanos));
}

/// Whether `s` seconds are at most half a second off.
pub open spec fn seconds_near(s: nat, nanos: nat) -> bool {
    -500_000_000 <= s * 1_000_000_000 - nanos <= 500_000_000
}

/// The names of the sort columns.
pub proof fn law_sort_columns_are_named()
    ensures
        SortKey::Rate.text() == "rate"@,
        SortKey::Total.text() == "total"@,
        SortKey::Name.text() == "name"@,
        SortKey::Conns.text() == "conns"@,
        SortKey::Pid.text() == "pid"@,
{
}

/// A line of the detail pane gives the flow's protocol, its state if it is TCP,
/// where it goes, and both of its rates.
pub proof fn law_detail_row_says_the_flow(f: FlowView, host: Seq<char>, services: ServicesView)
    ensures
        ({
            let row = flow_row(f, host, services);
            &&& row.len() == 5
            &&& f.proto == Proto::Tcp ==> row[0].text == "TCP"@ && row[1].text
                == crate::format::state_name(f.tcp_state)
            &&& f.proto == Proto::Udp ==> row[0].text == "UDP"@ && row[1].text == "—"@
            &&& f.remote is Some ==> row[2].text == host + ":"@ + services.port_label(
                (f.remote->0).port,
                f.proto,
            )
            &&& f.remote is None ==> row[2].text == "—"@
            &&& forall|i: int|
                0 <= i < 3 ==> (#[trigger] row[i]).tone == Tone::Plain && !row[i].right
            &&& row[3] == rate_piece(Rate { bytes: f.rx_delta as u128, nanos: f.span }, Tone::Down)
            &&& row[4] == rate_piece(Rate { bytes: f.tx_delta as u128, nanos: f.span }, Tone::Up)
        }),
{
}

/// The detail pane has a line for each flow, in their order, with the remote
/// host's name if it has resolved and its address if not.
pub proof fn law_detail_has_every_flow(
    flows: Seq<FlowView>,
    names: Seq<Option<String>>,
    addresses: Seq<String>,
    services: ServicesView,
    i: int,
)
    requires
        0 <= i < flows.len(),
    ensures
        detail_rows(flows, names, addresses, services).len() == flows.len(),
        names[i] is Some ==> detail_rows(flows, names, addresses, services)[i] == flow_row(
            flows[i],
            names[i]->0@,
            services,
        ),
        names[i] is None ==> detail_rows(flows, names, addresses, services)[i] == flow_row(
            flows[i],
            addresses[i]@,
            services,
        ),
{
}

/// The detail pane's title says whose flows it lists and how many there are.
pub proof fn law_detail_title_says_the_process(a: AppView, flows: Seq<FlowView>, pid: u32)
    requires
        a.expanded == Some(pid),
        flows.len() > 0,
    ensures
        detail_title(a, flows) == " "@ + flows[0].pname + " (pid "@ + text::decimal(pid as nat)
            + ") — "@ + text::decimal(flows.len()) + " flows "@,
{
}

/// Without flows or without an expanded process the title says so: no name, no
/// flows, or pid 0.
pub proof fn law_empty_detail_title(a: AppView, flows: Seq<FlowView>)
    ensures
        flows.len() == 0 && a.expanded is Some ==> detail_title(a, flows) == " "@ + seq![]
            + " (pid "@ + text::decimal(a.expanded->0 as nat) + ") — "@ + text::decimal(0)
            + " flows "@,
        flows.len() > 0 && a.expanded is None ==> detail_title(a, flows) == " "@ + flows[0].pname
            + " (pid "@ + text::decimal(0) + ") — "@ + text::decimal(flows.len()) + " flows "@,
{
}

/// The detail pane's columns have their headings.
pub proof fn law_detail_heading()
    ensures
        ({
            let head = detail_header();
            &&& head.len() == 5
            &&& head[0].text == "PROTO"@ && head[1].text == "STATE"@ && head[2].text == "REMOTE"@
            &&& head[3].text == "DOWN"@ && head[4].text == "UP"@
            &&& !head[0].right && !head[1].right && !head[2].right
            &&& head[3].right && head[4].right
            &&& forall|i: int| 0 <= i < 5 ==> (#[trigger] head[i]).tone == Tone::Plain
        }),
{
}

/// The columns of the process table have room for what they hold.
pub proof fn law_column_widths()
    ensures
        table_widths(true) == seq![
            Room::Length(7),
            Room::Min(14),
            Room::Length(11),
            Room::Length(6),
            Room::Length(11),
            Room::Length(6),
            Room::Length(9),
            Room::Length(6),
        ],
        table_widths(false) == seq![
            Room::Length(7),
            Room::Min(14),
            Room::Length(11),
            Room::Length(11),
            Room::Length(9),
            Room::Length(6),
        ],
{
    assert(table_widths(true) =~= seq![
        Room::Length(7),
        Room::Min(14),
        Room::Length(11),
        Room::Length(6),
        Room::Length(11),
        Room::Length(6),
        Room::Length(9),
        Room::Length(6),
    ]);
    assert(table_widths(false) =~= seq![
        Room::Length(7),
        Room::Min(14),
        Room::Length(11),
        Room::Length(11),
        Room::Length(9),
        Room::Length(6),
    ]);
}

/// Pieces and lines keep their number and order in ghost code.
pub proof fn law_lines_are_faithful(line: Seq<Piece>, body: Seq<Vec<Piece>>, i: int)
    ensures
        pieces(line).len() == line.len(),
        0 <= i < line.len() ==> pieces(line)[i] == line[i]@,
        cells(body).len() == body.len(),
        0 <= i < body.len() ==> cells(body)[i] == pieces(body[i]@),
{
}

/// A part that is shown on a condition is there just when the condition holds.
pub proof fn law_conditional_parts(s: Seq<Room>)
    ensures
        only_if(true, s) == s,
        only_if(false, s).len() == 0,
{
}

/// The detail pane is shown just for an expanded process with flows, and is as
/// high as they need, within bounds.
pub proof fn law_detail_pane_fits_the_flows(a: AppView, flows: nat)
    ensures
        has_detail(a, flows) <==> a.expanded is Some && flows >= 1,
        5 <= detail_height(flows) <= 14,
        2 <= flows <= 11 ==> detail_height(flows) == flows + 3,
        flows < 2 ==> detail_height(flows) == 5,
        flows > 11 ==> detail_height(flows) == 14,
{
}

/// What a piece of text says in ghost code is what it holds.
pub proof fn law_piece_view_is_faithful(p: Piece)
    ensures
        p@.text == p.text@,
        p@.tone == p.tone,
        p@.right == p.right,
{
}

} // verus!
